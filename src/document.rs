//! The ordered shape list, its undo/redo history and its save status.

use vstd::prelude::*;
use crate::units::WorldPoint;
use crate::style::Color;
use crate::shape::{Shape, ShapeView, PathCommand};

verus! {

/// Whether and where the document was stored.
#[derive(Clone, Debug, PartialEq, Eq)]
pub enum SaveStatus {
    NewAndEmpty,
    NewAndChanged,
    /// Stored at this path, and changed since.
    Unsaved(String),
    /// Stored at this path, unchanged since.
    Saved(String),
}

/// The status after an edit.
pub open spec fn changed_status(s: SaveStatus) -> SaveStatus {
    match s {
        SaveStatus::NewAndEmpty => SaveStatus::NewAndChanged,
        SaveStatus::Saved(p) => SaveStatus::Unsaved(p),
        _ => s,
    }
}

/// A reversible change of the shape list, as stored in the history.
#[derive(Clone, Debug, PartialEq, Eq)]
pub enum Edit {
    Insert { index: usize, shape: Shape },
    Remove { index: usize },
}

pub enum EditView {
    Insert(int, ShapeView),
    Remove(int),
}

impl View for Edit {
    type V = EditView;

    open spec fn view(&self) -> EditView {
        match self {
            Edit::Insert { index, shape } => EditView::Insert(*index as int, shape@),
            Edit::Remove { index } => EditView::Remove(*index as int),
        }
    }
}

/// The edit can be applied to the shape list `s`.
pub open spec fn applicable(s: Seq<ShapeView>, e: EditView) -> bool {
    match e {
        EditView::Insert(i, x) => 0 <= i <= s.len() && x.wf(),
        EditView::Remove(i) => 0 <= i < s.len(),
    }
}

pub open spec fn apply(s: Seq<ShapeView>, e: EditView) -> Seq<ShapeView> {
    match e {
        EditView::Insert(i, x) => s.insert(i, x),
        EditView::Remove(i) => s.remove(i),
    }
}

/// The edit that undoes `e` once it has been applied to `s`.
pub open spec fn inverse(s: Seq<ShapeView>, e: EditView) -> EditView {
    match e {
        EditView::Insert(i, _) => EditView::Remove(i),
        EditView::Remove(i) => EditView::Insert(i, s[i]),
    }
}

/// Applying the stack from its top down, each edit fits the list it meets.
pub open spec fn replays(s: Seq<ShapeView>, stack: Seq<EditView>) -> bool
    decreases stack.len(),
{
    stack.len() == 0 || (applicable(s, stack.last()) && replays(
        apply(s, stack.last()),
        stack.drop_last(),
    ))
}

pub open spec fn all_wf(s: Seq<ShapeView>) -> bool {
    forall|i: int| 0 <= i < s.len() ==> (#[trigger] s[i]).wf()
}

/// The document as plain values.
pub struct DocumentView {
    pub shapes: Seq<ShapeView>,
    pub undo: Seq<EditView>,
    pub redo: Seq<EditView>,
    pub status: SaveStatus,
}

/// The document after committing `x`.
pub open spec fn committed(d: DocumentView, x: ShapeView) -> DocumentView {
    DocumentView {
        shapes: d.shapes.push(x),
        undo: d.undo.push(EditView::Remove(d.shapes.len() as int)),
        redo: Seq::empty(),
        status: changed_status(d.status),
    }
}

/// The document after erasing the shape at `i`.
pub open spec fn erased(d: DocumentView, i: int) -> DocumentView {
    DocumentView {
        shapes: d.shapes.remove(i),
        undo: d.undo.push(EditView::Insert(i, d.shapes[i])),
        redo: Seq::empty(),
        status: changed_status(d.status),
    }
}

/// The document after an undo; unchanged where there is nothing to undo.
pub open spec fn undone(d: DocumentView) -> DocumentView {
    if d.undo.len() == 0 {
        d
    } else {
        DocumentView {
            shapes: apply(d.shapes, d.undo.last()),
            undo: d.undo.drop_last(),
            redo: d.redo.push(inverse(d.shapes, d.undo.last())),
            status: changed_status(d.status),
        }
    }
}

/// The document after a redo; unchanged where there is nothing to redo.
pub open spec fn redone(d: DocumentView) -> DocumentView {
    if d.redo.len() == 0 {
        d
    } else {
        DocumentView {
            shapes: apply(d.shapes, d.redo.last()),
            undo: d.undo.push(inverse(d.shapes, d.redo.last())),
            redo: d.redo.drop_last(),
            status: changed_status(d.status),
        }
    }
}

impl DocumentView {
    pub open spec fn wf(self) -> bool {
        &&& all_wf(self.shapes)
        &&& replays(self.shapes, self.undo)
        &&& replays(self.shapes, self.redo)
    }
}

/// The shapes in paint order (later is on top), the background, the history
/// and the save status.
pub struct Document {
    shapes: Vec<Shape>,
    undo_stack: Vec<Edit>,
    redo_stack: Vec<Edit>,
    status: SaveStatus,
    bgcolor: Color,
}

pub open spec fn shape_views(v: Seq<Shape>) -> Seq<ShapeView> {
    v.map_values(|s: Shape| s@)
}

pub open spec fn edit_views(v: Seq<Edit>) -> Seq<EditView> {
    v.map_values(|e: Edit| e@)
}

impl View for Document {
    type V = DocumentView;

    closed spec fn view(&self) -> DocumentView {
        DocumentView {
            shapes: shape_views(self.shapes@),
            undo: edit_views(self.undo_stack@),
            redo: edit_views(self.redo_stack@),
            status: self.status,
        }
    }
}

proof fn lemma_apply_keeps_wf(s: Seq<ShapeView>, e: EditView)
    requires
        all_wf(s),
        applicable(s, e),
    ensures
        all_wf(apply(s, e)),
        applicable(apply(s, e), inverse(s, e)),
        apply(apply(s, e), inverse(s, e)) == s,
{
    match e {
        EditView::Insert(i, x) => {
            assert(apply(apply(s, e), inverse(s, e)) =~= s);
        },
        EditView::Remove(i) => {
            assert(apply(apply(s, e), inverse(s, e)) =~= s);
        },
    }
}

fn apply_edit(shapes: &mut Vec<Shape>, e: Edit) -> (inv: Edit)
    requires
        applicable(shape_views(old(shapes)@), e@),
    ensures
        shape_views(final(shapes)@) == apply(shape_views(old(shapes)@), e@),
        inv@ == inverse(shape_views(old(shapes)@), e@),
{
    let ghost before = shape_views(shapes@);
    match e {
        Edit::Insert { index, shape } => {
            shapes.insert(index, shape);
            assert(shape_views(shapes@) =~= before.insert(index as int, e@->Insert_1));
            Edit::Remove { index }
        },
        Edit::Remove { index } => {
            let shape = shapes.remove(index);
            assert(shape_views(shapes@) =~= before.remove(index as int));
            Edit::Insert { index, shape }
        },
    }
}

impl Document {
    /// An empty, new document with the given background.
    pub fn new(bgcolor: Color) -> (d: Document)
        ensures
            d@.shapes.len() == 0,
            d@.undo.len() == 0,
            d@.redo.len() == 0,
            d@.status == SaveStatus::NewAndEmpty,
            d.bgcolor() == bgcolor,
            d@.wf(),
    {
        let d = Document {
            shapes: Vec::new(),
            undo_stack: Vec::new(),
            redo_stack: Vec::new(),
            status: SaveStatus::NewAndEmpty,
            bgcolor,
        };
        assert(d@.shapes =~= Seq::empty());
        assert(d@.undo =~= Seq::empty());
        assert(d@.redo =~= Seq::empty());
        d
    }

    /// A document that holds `shapes`, just read from `path`, with no history.
    pub fn loaded(shapes: Vec<Shape>, bgcolor: Color, path: String) -> (d: Document)
        requires
            all_wf(shape_views(shapes@)),
        ensures
            d@.shapes == shape_views(shapes@),
            d@.undo.len() == 0,
            d@.redo.len() == 0,
            d@.status == SaveStatus::Saved(path),
            d.bgcolor() == bgcolor,
            d@.wf(),
    {
        let d = Document {
            shapes,
            undo_stack: Vec::new(),
            redo_stack: Vec::new(),
            status: SaveStatus::Saved(path),
            bgcolor,
        };
        assert(d@.undo =~= Seq::empty());
        assert(d@.redo =~= Seq::empty());
        d
    }

    pub closed spec fn bgcolor(&self) -> Color {
        self.bgcolor
    }

    pub fn background(&self) -> (c: Color)
        ensures
            c == self.bgcolor(),
    {
        self.bgcolor
    }

    /// The shapes in paint order.
    pub fn shapes(&self) -> (r: &Vec<Shape>)
        ensures
            shape_views(r@) == self@.shapes,
    {
        &self.shapes
    }

    pub fn len(&self) -> (n: usize)
        ensures
            n == self@.shapes.len(),
    {
        self.shapes.len()
    }

    pub fn save_status(&self) -> (s: &SaveStatus)
        ensures
            *s == self@.status,
    {
        &self.status
    }

    /// Whether there is an edit to undo.
    pub fn can_undo(&self) -> (r: bool)
        ensures
            r <==> self@.undo.len() > 0,
    {
        self.undo_stack.len() > 0
    }

    /// Whether there is an edit to redo.
    pub fn can_redo(&self) -> (r: bool)
        ensures
            r <==> self@.redo.len() > 0,
    {
        self.redo_stack.len() > 0
    }

    fn mark_changed(&mut self)
        ensures
            final(self)@ == (DocumentView { status: changed_status(old(self)@.status), ..old(self)@ }),
            final(self).bgcolor == old(self).bgcolor,
    {
        let mut st = SaveStatus::NewAndEmpty;
        std::mem::swap(&mut st, &mut self.status);
        self.status = match st {
            SaveStatus::NewAndEmpty => SaveStatus::NewAndChanged,
            SaveStatus::Saved(p) => SaveStatus::Unsaved(p),
            other => other,
        };
    }

    /// Records that the document was stored at `path`.
    pub fn set_saved(&mut self, path: String)
        ensures
            final(self)@ == (DocumentView { status: SaveStatus::Saved(path), ..old(self)@ }),
            final(self).bgcolor() == old(self).bgcolor(),
    {
        self.status = SaveStatus::Saved(path);
    }

    /// Appends a shape on top; it can be undone and the redo stack is emptied.
    pub fn commit(&mut self, shape: Shape)
        requires
            old(self)@.wf(),
            shape@.wf(),
        ensures
            final(self)@ == committed(old(self)@, shape@),
            final(self)@.wf(),
            final(self).bgcolor() == old(self).bgcolor(),
    {
        let ghost before = self@;
        let index = self.shapes.len();
        self.shapes.push(shape);
        self.undo_stack.push(Edit::Remove { index });
        self.redo_stack.clear();
        self.mark_changed();
        assert(self@.shapes =~= before.shapes.push(shape@));
        assert(self@.undo =~= before.undo.push(EditView::Remove(index as int)));
        assert(self@.redo =~= Seq::empty());
        let ghost after = self@;
        assert(apply(after.shapes, after.undo.last()) =~= before.shapes);
        assert(after.undo.drop_last() =~= before.undo);
        assert(all_wf(after.shapes));
    }

    /// Removes the shape at `index`; it can be undone and the redo stack is
    /// emptied.
    pub fn erase(&mut self, index: usize)
        requires
            old(self)@.wf(),
            index < old(self)@.shapes.len(),
        ensures
            final(self)@ == erased(old(self)@, index as int),
            final(self)@.wf(),
            final(self).bgcolor() == old(self).bgcolor(),
    {
        let ghost before = self@;
        let shape = self.shapes.remove(index);
        self.undo_stack.push(Edit::Insert { index, shape });
        self.redo_stack.clear();
        self.mark_changed();
        assert(self@.shapes =~= before.shapes.remove(index as int));
        assert(self@.undo =~= before.undo.push(EditView::Insert(index as int, before.shapes[index as int])));
        assert(self@.redo =~= Seq::empty());
        let ghost after = self@;
        assert(apply(after.shapes, after.undo.last()) =~= before.shapes);
        assert(after.undo.drop_last() =~= before.undo);
        assert(all_wf(after.shapes)) by {
            assert forall|i: int| 0 <= i < after.shapes.len() implies (#[trigger] after.shapes[i]).wf() by {
                if i < index {
                    assert(after.shapes[i] == before.shapes[i]);
                } else {
                    assert(after.shapes[i] == before.shapes[i + 1]);
                }
            }
        }
    }

    /// Reverts the last edit; nothing happens where there is none.
    pub fn undo(&mut self) -> (done: bool)
        requires
            old(self)@.wf(),
        ensures
            final(self)@ == undone(old(self)@),
            done <==> old(self)@.undo.len() > 0,
            final(self)@.wf(),
            final(self).bgcolor() == old(self).bgcolor(),
    {
        let ghost before = self@;
        match self.undo_stack.pop() {
            None => false,
            Some(e) => {
                proof {
                    assert(edit_views(self.undo_stack@) =~= before.undo.drop_last());
                    lemma_apply_keeps_wf(before.shapes, e@);
                }
                let inv = apply_edit(&mut self.shapes, e);
                self.redo_stack.push(inv);
                self.mark_changed();
                assert(self@.redo =~= before.redo.push(inv@));
                assert(self@.redo.drop_last() =~= before.redo);
                assert(replays(before.shapes, before.undo));
                assert(replays(self@.shapes, self@.undo));
                assert(replays(self@.shapes, self@.redo));
                true
            },
        }
    }

    /// Applies again the last undone edit; nothing happens where there is none.
    pub fn redo(&mut self) -> (done: bool)
        requires
            old(self)@.wf(),
        ensures
            final(self)@ == redone(old(self)@),
            done <==> old(self)@.redo.len() > 0,
            final(self)@.wf(),
            final(self).bgcolor() == old(self).bgcolor(),
    {
        let ghost before = self@;
        match self.redo_stack.pop() {
            None => false,
            Some(e) => {
                proof {
                    assert(edit_views(self.redo_stack@) =~= before.redo.drop_last());
                    lemma_apply_keeps_wf(before.shapes, e@);
                }
                let inv = apply_edit(&mut self.shapes, e);
                self.undo_stack.push(inv);
                self.mark_changed();
                assert(self@.undo =~= before.undo.push(inv@));
                assert(self@.undo.drop_last() =~= before.undo);
                assert(replays(before.shapes, before.redo));
                assert(replays(self@.shapes, self@.redo));
                assert(replays(self@.shapes, self@.undo));
                true
            },
        }
    }

    /// Empties the document and its history; the background stays.
    pub fn reset(&mut self)
        ensures
            final(self)@.shapes.len() == 0,
            final(self)@.undo.len() == 0,
            final(self)@.redo.len() == 0,
            final(self)@.status == SaveStatus::NewAndEmpty,
            final(self)@.wf(),
            final(self).bgcolor() == old(self).bgcolor(),
    {
        self.shapes.clear();
        self.undo_stack.clear();
        self.redo_stack.clear();
        self.status = SaveStatus::NewAndEmpty;
        assert(self@.shapes =~= Seq::empty());
        assert(self@.undo =~= Seq::empty());
        assert(self@.redo =~= Seq::empty());
    }
}

/// Undo right after a commit gives back the shape list from before it; redo
/// right after that gives back the list with the committed shape.
pub proof fn lemma_commit_undo_redo(d: DocumentView, x: ShapeView)
    requires
        d.wf(),
        x.wf(),
    ensures
        undone(committed(d, x)).shapes == d.shapes,
        redone(undone(committed(d, x))).shapes == committed(d, x).shapes,
{
    let c = committed(d, x);
    assert(c.undo.last() == EditView::Remove(d.shapes.len() as int));
    assert(undone(c).shapes =~= d.shapes);
    let u = undone(c);
    assert(u.redo.last() == inverse(c.shapes, c.undo.last()));
    assert(redone(u).shapes =~= c.shapes);
}

/// Undo right after an erase gives back the shape list from before it; redo
/// right after that erases the shape again.
pub proof fn lemma_erase_undo_redo(d: DocumentView, i: int)
    requires
        d.wf(),
        0 <= i < d.shapes.len(),
    ensures
        undone(erased(d, i)).shapes == d.shapes,
        redone(undone(erased(d, i))).shapes == erased(d, i).shapes,
{
    let e = erased(d, i);
    assert(undone(e).shapes =~= d.shapes);
    let u = undone(e);
    assert(redone(u).shapes =~= e.shapes);
}

/// A commit after an undo leaves nothing to redo.
pub proof fn lemma_commit_clears_redo(d: DocumentView, x: ShapeView)
    ensures
        committed(undone(d), x).redo.len() == 0,
{
}

} // verus!
