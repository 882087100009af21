//! The SVG file format: a document is written as one `<svg>` whose group
//! holds a background rectangle and then one element per shape, each on its
//! own line. The reader is strict: it accepts exactly what the writer
//! produces and refuses anything else, so a file read back is the document
//! that was written.

use vstd::prelude::*;
use crate::units::WorldPoint;
use crate::style::{Color, Style, Stroke};
use crate::shape::{PathCommand, Ellipse, Shape, ShapeView};

verus! {

/// What the reader refuses.
#[derive(Clone, Copy, Debug, PartialEq, Eq, Structural)]
pub enum ParseError {
    /// The text is not a drawing in this format.
    Malformed,
}

/// The bytes of all items of `s`, each written by `f`, one after another.
pub open spec fn concat_map<T>(s: Seq<T>, f: spec_fn(T) -> Seq<u8>) -> Seq<u8>
    decreases s.len(),
{
    if s.len() == 0 {
        Seq::empty()
    } else {
        concat_map(s.drop_last(), f) + f(s.last())
    }
}

pub proof fn lemma_concat_map_split<T>(s: Seq<T>, f: spec_fn(T) -> Seq<u8>, k: int)
    requires
        0 <= k < s.len(),
    ensures
        concat_map(s, f) == concat_map(s.take(k), f) + f(s[k]) + concat_map(s.skip(k + 1), f),
    decreases s.len(),
{
    if k == s.len() - 1 {
        assert(s.take(k) =~= s.drop_last());
        assert(s.skip(k + 1) =~= Seq::<T>::empty());
        assert(concat_map(s, f) =~= concat_map(s.take(k), f) + f(s[k]) + concat_map(
            s.skip(k + 1),
            f,
        ));
    } else {
        let d = s.drop_last();
        lemma_concat_map_split(d, f, k);
        assert(d.take(k) =~= s.take(k));
        assert(d[k] == s[k]);
        assert(s.skip(k + 1).drop_last() =~= d.skip(k + 1));
        assert(s.skip(k + 1).last() == s.last());
        assert(concat_map(s, f) =~= concat_map(s.take(k), f) + f(s[k]) + concat_map(
            s.skip(k + 1),
            f,
        ));
    }
}

pub proof fn lemma_concat_map_take<T>(s: Seq<T>, f: spec_fn(T) -> Seq<u8>, k: int)
    requires
        0 <= k < s.len(),
    ensures
        concat_map(s.take(k + 1), f) == concat_map(s.take(k), f) + f(s[k]),
{
    assert(s.take(k + 1).drop_last() =~= s.take(k));
}

// ----------------------------------------------------------------------
// Tokens

pub open spec fn digit(d: int) -> u8 {
    (48 + d) as u8
}

/// Decimal digits of `n`, without leading zeros.
pub open spec fn nat_bytes(n: nat) -> Seq<u8>
    decreases n,
{
    if n < 10 {
        seq![digit(n as int)]
    } else {
        nat_bytes(n / 10).push(digit((n % 10) as int))
    }
}

/// A decimal integer, with a minus sign where negative.
pub open spec fn int_bytes(n: int) -> Seq<u8> {
    if n < 0 {
        seq![45u8] + nat_bytes((-n) as nat)
    } else {
        nat_bytes(n as nat)
    }
}

pub open spec fn hex_digit(d: int) -> u8 {
    if d < 10 {
        (48 + d) as u8
    } else {
        (87 + d) as u8
    }
}

pub open spec fn hex_byte(v: u8) -> Seq<u8> {
    seq![hex_digit((v / 16) as int), hex_digit((v % 16) as int)]
}

/// `#rrggbbaa` in lower-case hex.
pub open spec fn color_bytes(c: Color) -> Seq<u8> {
    seq![35u8] + hex_byte(c.r) + hex_byte(c.g) + hex_byte(c.b) + hex_byte(c.a)
}

/// `<svg xmlns="http://www.w3.org/2000/svg">`, a newline, `<g>`, a newline,
/// and `<rect width="100%" height="100%" fill="`.
pub open spec fn head_bytes() -> Seq<u8> {
    seq![
        60u8, 115, 118, 103, 32, 120, 109, 108, 110, 115, 61, 34, 104, 116, 116, 112, 58, 47, 47,
        119, 119, 119, 46, 119, 51, 46, 111, 114, 103, 47, 50, 48, 48, 48, 47, 115, 118, 103, 34,
        62, 10, 60, 103, 62, 10, 60, 114, 101, 99, 116, 32, 119, 105, 100, 116, 104, 61, 34, 49,
        48, 48, 37, 34, 32, 104, 101, 105, 103, 104, 116, 61, 34, 49, 48, 48, 37, 34, 32, 102,
        105, 108, 108, 61, 34
    ]
}

/// `"/>` and a newline.
pub open spec fn close_tag_bytes() -> Seq<u8> {
    seq![34u8, 47, 62, 10]
}

/// `</g>`, a newline, `</svg>`, a newline.
pub open spec fn tail_bytes() -> Seq<u8> {
    seq![60u8, 47, 103, 62, 10, 60, 47, 115, 118, 103, 62, 10]
}

/// `<path d="`
pub open spec fn path_open_bytes() -> Seq<u8> {
    seq![60u8, 112, 97, 116, 104, 32, 100, 61, 34]
}

/// `<ellipse cx="`
pub open spec fn ellipse_open_bytes() -> Seq<u8> {
    seq![60u8, 101, 108, 108, 105, 112, 115, 101, 32, 99, 120, 61, 34]
}

/// `" ` followed by an attribute name `n` of two letters and `="`.
pub open spec fn attr_bytes(a: u8, b: u8) -> Seq<u8> {
    seq![34u8, 32, a, b, 61, 34]
}

/// ` stroke="`
pub open spec fn stroke_bytes() -> Seq<u8> {
    seq![32u8, 115, 116, 114, 111, 107, 101, 61, 34]
}

/// `" stroke-width="`
pub open spec fn width_bytes() -> Seq<u8> {
    seq![34u8, 32, 115, 116, 114, 111, 107, 101, 45, 119, 105, 100, 116, 104, 61, 34]
}

/// ` fill="`
pub open spec fn fill_bytes() -> Seq<u8> {
    seq![32u8, 102, 105, 108, 108, 61, 34]
}

/// `none`
pub open spec fn none_bytes() -> Seq<u8> {
    seq![110u8, 111, 110, 101]
}

pub open spec fn point_bytes(p: WorldPoint) -> Seq<u8> {
    seq![32u8] + int_bytes(p.x as int) + seq![32u8] + int_bytes(p.y as int)
}

/// One path step: a space, its letter, and its points, each after a space.
pub open spec fn command_bytes(c: PathCommand) -> Seq<u8> {
    match c {
        PathCommand::MoveTo(p) => seq![32u8, 77] + point_bytes(p),
        PathCommand::LineTo(p) => seq![32u8, 76] + point_bytes(p),
        PathCommand::CurveTo(a, b, p) => seq![32u8, 67] + point_bytes(a) + point_bytes(b)
            + point_bytes(p),
    }
}

/// ` stroke="none"` or ` stroke="#rrggbbaa" stroke-width="n"`, then
/// ` fill="none"` or ` fill="#rrggbbaa"`, and the closing quote.
pub open spec fn style_bytes(s: Style) -> Seq<u8> {
    stroke_bytes() + match s.stroke {
        None => none_bytes(),
        Some(st) => color_bytes(st.color) + width_bytes() + int_bytes(st.size as int),
    } + seq![34u8] + fill_bytes() + match s.fill {
        None => none_bytes(),
        Some(c) => color_bytes(c),
    }
}

pub open spec fn shape_bytes(s: ShapeView) -> Seq<u8> {
    match s {
        ShapeView::Path { commands, style } => path_open_bytes() + concat_map(
            commands,
            |c: PathCommand| command_bytes(c),
        ) + seq![34u8] + style_bytes(style) + close_tag_bytes(),
        ShapeView::Ellipse { ellipse, style } => ellipse_open_bytes() + int_bytes(
            ellipse.center.x as int,
        ) + attr_bytes(99, 121) + int_bytes(ellipse.center.y as int) + attr_bytes(114, 120)
            + int_bytes(ellipse.semimajor as int) + attr_bytes(114, 121) + int_bytes(
            ellipse.semiminor as int,
        ) + seq![34u8] + style_bytes(style) + close_tag_bytes(),
    }
}

/// The file for a drawing with background `bg` and `shapes`.
pub open spec fn svg_bytes(bg: Color, shapes: Seq<ShapeView>) -> Seq<u8> {
    head_bytes() + color_bytes(bg) + close_tag_bytes() + concat_map(
        shapes,
        |s: ShapeView| shape_bytes(s),
    ) + tail_bytes()
}

// ----------------------------------------------------------------------
// Writing

fn push_all(out: &mut Vec<u8>, s: Vec<u8>)
    ensures
        final(out)@ == old(out)@ + s@,
{
    let mut s = s;
    out.append(&mut s);
}

fn push_nat(out: &mut Vec<u8>, n: u64)
    ensures
        final(out)@ == old(out)@ + nat_bytes(n as nat),
    decreases n,
{
    if n >= 10 {
        push_nat(out, n / 10);
    }
    out.push((48 + n % 10) as u8);
    assert(final(out)@ =~= old(out)@ + nat_bytes(n as nat));
}

fn push_int(out: &mut Vec<u8>, n: i64)
    ensures
        final(out)@ == old(out)@ + int_bytes(n as int),
{
    if n < 0 {
        out.push(45);
        let m: u64 = if n == i64::MIN {
            0x8000_0000_0000_0000
        } else {
            (-n) as u64
        };
        push_nat(out, m);
        assert(final(out)@ =~= old(out)@ + int_bytes(n as int));
    } else {
        push_nat(out, n as u64);
    }
}

fn hex_digit_exec(d: u8) -> (r: u8)
    requires
        d < 16,
    ensures
        r == hex_digit(d as int),
{
    if d < 10 {
        48 + d
    } else {
        87 + d
    }
}

fn push_color(out: &mut Vec<u8>, c: Color)
    ensures
        final(out)@ == old(out)@ + color_bytes(c),
{
    out.push(35);
    let ghost start = out@;
    out.push(hex_digit_exec(c.r / 16));
    out.push(hex_digit_exec(c.r % 16));
    out.push(hex_digit_exec(c.g / 16));
    out.push(hex_digit_exec(c.g % 16));
    out.push(hex_digit_exec(c.b / 16));
    out.push(hex_digit_exec(c.b % 16));
    out.push(hex_digit_exec(c.a / 16));
    out.push(hex_digit_exec(c.a % 16));
    assert(out@ =~= old(out)@ + color_bytes(c));
}

fn push_point(out: &mut Vec<u8>, p: WorldPoint)
    ensures
        final(out)@ == old(out)@ + point_bytes(p),
{
    out.push(32);
    push_int(out, p.x);
    out.push(32);
    push_int(out, p.y);
    assert(out@ =~= old(out)@ + point_bytes(p));
}

fn push_command(out: &mut Vec<u8>, c: PathCommand)
    ensures
        final(out)@ == old(out)@ + command_bytes(c),
{
    out.push(32);
    match c {
        PathCommand::MoveTo(p) => {
            out.push(77);
            push_point(out, p);
        },
        PathCommand::LineTo(p) => {
            out.push(76);
            push_point(out, p);
        },
        PathCommand::CurveTo(a, b, p) => {
            out.push(67);
            push_point(out, a);
            push_point(out, b);
            push_point(out, p);
        },
    }
    assert(out@ =~= old(out)@ + command_bytes(c));
}

fn push_style(out: &mut Vec<u8>, s: Style)
    ensures
        final(out)@ == old(out)@ + style_bytes(s),
{
    push_all(out, stroke_token());
    match s.stroke {
        None => push_all(out, none_token()),
        Some(st) => {
            push_color(out, st.color);
            push_all(out, width_token());
            push_int(out, st.size);
        },
    }
    out.push(34);
    push_all(out, fill_token());
    match s.fill {
        None => push_all(out, none_token()),
        Some(c) => push_color(out, c),
    }
    assert(out@ =~= old(out)@ + style_bytes(s));
}

fn push_attr(out: &mut Vec<u8>, a: u8, b: u8)
    ensures
        final(out)@ == old(out)@ + attr_bytes(a, b),
{
    push_all(out, attr_token(a, b));
}

fn push_shape(out: &mut Vec<u8>, s: &Shape)
    ensures
        final(out)@ == old(out)@ + shape_bytes(s@),
{
    match s {
        Shape::Path { commands, style } => {
            push_all(out, path_open_token());
            let ghost mid = out@;
            let mut i: usize = 0;
            while i < commands.len()
                invariant
                    i <= commands@.len(),
                    out@ == mid + concat_map(commands@.take(i as int), |c: PathCommand| command_bytes(c)),
                decreases commands@.len() - i,
            {
                proof {
                    lemma_concat_map_take(commands@, |c: PathCommand| command_bytes(c), i as int);
                }
                push_command(out, commands[i]);
                i = i + 1;
            }
            assert(commands@.take(commands@.len() as int) =~= commands@);
            out.push(34);
            push_style(out, *style);
            push_all(out, close_tag_token());
            assert(out@ =~= old(out)@ + shape_bytes(s@));
        },
        Shape::Ellipse { ellipse, style } => {
            push_all(out, ellipse_open_token());
            push_int(out, ellipse.center.x);
            push_attr(out, 99, 121);
            push_int(out, ellipse.center.y);
            push_attr(out, 114, 120);
            push_int(out, ellipse.semimajor);
            push_attr(out, 114, 121);
            push_int(out, ellipse.semiminor);
            out.push(34);
            push_style(out, *style);
            push_all(out, close_tag_token());
            assert(out@ =~= old(out)@ + shape_bytes(s@));
        },
    }
}

/// The file for a drawing with background `bg` and `shapes`, as UTF-8 bytes.
pub fn write_svg(bg: Color, shapes: &Vec<Shape>) -> (r: Vec<u8>)
    ensures
        r@ == svg_bytes(bg, crate::document::shape_views(shapes@)),
{
    let ghost sv = crate::document::shape_views(shapes@);
    let mut out = head_token();
    push_color(&mut out, bg);
    push_all(&mut out, close_tag_token());
    let ghost mid = out@;
    let mut i: usize = 0;
    while i < shapes.len()
        invariant
            i <= shapes@.len(),
            sv == crate::document::shape_views(shapes@),
            out@ == mid + concat_map(sv.take(i as int), |s: ShapeView| shape_bytes(s)),
        decreases shapes@.len() - i,
    {
        proof {
            lemma_concat_map_take(sv, |s: ShapeView| shape_bytes(s), i as int);
        }
        push_shape(&mut out, &shapes[i]);
        i = i + 1;
    }
    assert(sv.take(sv.len() as int) =~= sv);
    push_all(&mut out, tail_token());
    assert(out@ =~= svg_bytes(bg, sv));
    out
}

// ----------------------------------------------------------------------
// Reading

pub open spec fn is_digit(c: u8) -> bool {
    48 <= c <= 57
}

/// The value of a run of decimal digits.
pub open spec fn digits_value(s: Seq<u8>) -> int
    decreases s.len(),
{
    if s.len() == 0 {
        0
    } else {
        digits_value(s.drop_last()) * 10 + (s.last() - 48)
    }
}

pub open spec fn pow10(k: nat) -> int
    decreases k,
{
    if k == 0 {
        1
    } else {
        10 * pow10((k - 1) as nat)
    }
}

/// `t` stands in `b` at `pos`.
pub open spec fn at(b: Seq<u8>, pos: int, t: Seq<u8>) -> bool {
    0 <= pos && pos + t.len() <= b.len() && b.subrange(pos, pos + t.len()) == t
}

/// A number written at `pos` ends there: some byte follows and it is no digit.
pub open spec fn ends_number(b: Seq<u8>, i: int) -> bool {
    0 <= i < b.len() && !is_digit(b[i])
}

/// Largest magnitude of a number that the reader takes.
pub const MAX_NUMBER: u64 = 1_000_000_000_000_000_000;

proof fn lemma_nat_bytes(n: nat)
    ensures
        nat_bytes(n).len() >= 1,
        forall|i: int| 0 <= i < nat_bytes(n).len() ==> is_digit(#[trigger] nat_bytes(n)[i]),
        digits_value(nat_bytes(n)) == n,
        n < pow10(nat_bytes(n).len() as nat),
        nat_bytes(n).len() > 1 ==> n >= pow10((nat_bytes(n).len() - 1) as nat),
    decreases n,
{
    let s = nat_bytes(n);
    if n >= 10 {
        let q = n / 10;
        lemma_nat_bytes(q);
        assert(s.drop_last() =~= nat_bytes(q));
        assert(forall|i: int| 0 <= i < s.len() - 1 ==> s[i] == nat_bytes(q)[i]);
        assert(s.last() == digit((n % 10) as int));
        assert(s.last() - 48 == n % 10);
        assert(digits_value(s) == digits_value(s.drop_last()) * 10 + (s.last() - 48));
        assert(n == q * 10 + n % 10);
        let l = nat_bytes(q).len();
        assert(pow10((l + 1) as nat) == 10 * pow10(l as nat));
        if l > 1 {
            assert(pow10(l as nat) == 10 * pow10((l - 1) as nat));
        } else {
            assert(pow10(1) == 10 * pow10(0));
        }
    } else {
        assert(s.drop_last() =~= Seq::<u8>::empty());
        assert(pow10(1) == 10 * pow10(0));
        assert(s.last() - 48 == n);
        assert(digits_value(s) == digits_value(s.drop_last()) * 10 + (s.last() - 48));
    }
}

proof fn lemma_pow10_mono(a: nat, b: nat)
    requires
        a <= b,
    ensures
        1 <= pow10(a) <= pow10(b),
    decreases b,
{
    lemma_pow10_pos(a);
    if a < b {
        lemma_pow10_mono(a, (b - 1) as nat);
        lemma_pow10_pos((b - 1) as nat);
    }
}

proof fn lemma_pow10_pos(a: nat)
    ensures
        1 <= pow10(a),
    decreases a,
{
    if a > 0 {
        lemma_pow10_pos((a - 1) as nat);
    }
}

proof fn lemma_short_number(n: nat)
    requires
        n < MAX_NUMBER,
    ensures
        nat_bytes(n).len() <= 18,
{
    lemma_nat_bytes(n);
    let l = nat_bytes(n).len();
    if l > 18 {
        lemma_pow10_mono(18, (l - 1) as nat);
        reveal_with_fuel(pow10, 19);
        assert(pow10(18) == 1_000_000_000_000_000_000);
    }
}

fn expect(b: &[u8], pos: usize, t: Vec<u8>) -> (r: Option<usize>)
    ensures
        r is Some <==> at(b@, pos as int, t@),
        r matches Some(e) ==> e == pos + t@.len(),
{
    if pos > b.len() || t.len() > b.len() - pos {
        return None;
    }
    let mut i: usize = 0;
    while i < t.len()
        invariant
            pos + t@.len() <= b@.len(),
            pos + t.len() <= b.len(),
            i <= t@.len(),
            forall|j: int| 0 <= j < i ==> b@[pos + j] == t@[j],
        decreases t@.len() - i,
    {
        if b[pos + i] != t[i] {
            assert(b@.subrange(pos as int, pos + t@.len())[i as int] != t@[i as int]);
            return None;
        }
        i = i + 1;
    }
    assert(b@.subrange(pos as int, pos + t@.len()) =~= t@);
    Some(pos + t.len())
}

fn expect_byte(b: &[u8], pos: usize, c: u8) -> (r: Option<usize>)
    ensures
        r is Some <==> at(b@, pos as int, seq![c]),
        r matches Some(e) ==> e == pos + 1,
{
    let t = vec![c];
    assert(t@ =~= seq![c]);
    expect(b, pos, t)
}

/// Reads a run of digits at `pos`.
fn parse_nat(b: &[u8], pos: usize) -> (r: Option<(u64, usize)>)
    ensures
        r matches Some((_, e)) ==> pos < e <= b@.len(),
        forall|n: nat|
            #![trigger nat_bytes(n)]
            n < MAX_NUMBER && at(b@, pos as int, nat_bytes(n)) && ends_number(
                b@,
                pos + nat_bytes(n).len(),
            ) ==> (r matches Some((v, e)) && v == n && e == pos + nat_bytes(n).len()),
{
    if pos >= b.len() {
        return None;
    }
    let mut i: usize = pos;
    let mut v: u64 = 0;
    while i < b.len() && i - pos < 19 && 48 <= b[i] && b[i] <= 57
        invariant
            pos <= i <= b@.len(),
            i - pos <= 19,
            forall|j: int| pos <= j < i ==> is_digit(#[trigger] b@[j]),
            v == digits_value(b@.subrange(pos as int, i as int)),
            v < pow10((i - pos) as nat),
        decreases b@.len() - i,
    {
        proof {
            let s = b@.subrange(pos as int, i + 1);
            assert(s.drop_last() =~= b@.subrange(pos as int, i as int));
            reveal_with_fuel(pow10, 20);
            lemma_pow10_mono((i - pos) as nat, 18);
            assert(pow10(18) == 1_000_000_000_000_000_000);
        }
        v = v * 10 + (b[i] - 48) as u64;
        i = i + 1;
    }
    let r = if i == pos || i - pos >= 19 {
        None
    } else {
        Some((v, i))
    };
    assert forall|n: nat|
        #![trigger nat_bytes(n)]
        n < MAX_NUMBER && at(b@, pos as int, nat_bytes(n)) && ends_number(
            b@,
            pos + nat_bytes(n).len(),
        ) implies (r matches Some((v, e)) && v == n && e == pos + nat_bytes(n).len()) by {
        lemma_nat_bytes(n);
        lemma_short_number(n);
        let l = nat_bytes(n).len() as int;
        assert forall|j: int| pos <= j < pos + l implies is_digit(b@[j]) by {
            assert(b@[j] == b@.subrange(pos as int, pos + l)[j - pos]);
            assert(is_digit(nat_bytes(n)[j - pos]));
        }
        if i < pos + l {
            assert(is_digit(b@[i as int]));
        }
        if i > pos + l {
            assert(is_digit(b@[pos + l]));
        }
        assert(i == pos + l);
        assert(b@.subrange(pos as int, i as int) == nat_bytes(n));
    }
    r
}

/// Reads a decimal integer, with an optional minus sign, at `pos`.
fn parse_int(b: &[u8], pos: usize) -> (r: Option<(i64, usize)>)
    ensures
        r matches Some((_, e)) ==> pos < e <= b@.len(),
        forall|n: int|
            #![trigger int_bytes(n)]
            -(MAX_NUMBER as int) < n < MAX_NUMBER as int && at(b@, pos as int, int_bytes(n)) && ends_number(
                b@,
                pos + int_bytes(n).len(),
            ) ==> (r matches Some((v, e)) && v == n && e == pos + int_bytes(n).len()),
{
    if pos < b.len() && b[pos] == 45 {
        match parse_nat(b, pos + 1) {
            Some((v, e)) => {
                let r = if v < MAX_NUMBER {
                    Some((-(v as i64), e))
                } else {
                    None
                };
                assert forall|n: int|
                    #![trigger int_bytes(n)]
                    -(MAX_NUMBER as int) < n < MAX_NUMBER as int && at(b@, pos as int, int_bytes(n)) && ends_number(
                        b@,
                        pos + int_bytes(n).len(),
                    ) implies (r matches Some((v, e)) && v == n && e == pos + int_bytes(n).len()) by {
                    lemma_nat_bytes((if n < 0 { -n } else { n }) as nat);
                    if n >= 0 {
                        assert(b@.subrange(pos as int, pos + int_bytes(n).len())[0] == int_bytes(n)[0]);
                        assert(is_digit(nat_bytes(n as nat)[0]));
                    } else {
                        let m = (-n) as nat;
                        assert(b@.subrange(pos + 1, pos + 1 + nat_bytes(m).len()) =~= b@.subrange(
                            pos as int,
                            pos + int_bytes(n).len(),
                        ).subrange(1, int_bytes(n).len() as int));
                        assert(int_bytes(n).subrange(1, int_bytes(n).len() as int) =~= nat_bytes(m));
                        assert(at(b@, pos + 1, nat_bytes(m)));
                    }
                }
                r
            },
            None => {
                assert forall|n: int|
                    #![trigger int_bytes(n)]
                    -(MAX_NUMBER as int) < n < MAX_NUMBER as int && at(b@, pos as int, int_bytes(n)) && ends_number(
                        b@,
                        pos + int_bytes(n).len(),
                    ) implies false by {
                    lemma_nat_bytes((if n < 0 { -n } else { n }) as nat);
                    if n >= 0 {
                        assert(b@.subrange(pos as int, pos + int_bytes(n).len())[0] == int_bytes(n)[0]);
                        assert(is_digit(nat_bytes(n as nat)[0]));
                    } else {
                        let m = (-n) as nat;
                        assert(b@.subrange(pos + 1, pos + 1 + nat_bytes(m).len()) =~= b@.subrange(
                            pos as int,
                            pos + int_bytes(n).len(),
                        ).subrange(1, int_bytes(n).len() as int));
                        assert(int_bytes(n).subrange(1, int_bytes(n).len() as int) =~= nat_bytes(m));
                        assert(at(b@, pos + 1, nat_bytes(m)));
                    }
                }
                None
            },
        }
    } else {
        let r = match parse_nat(b, pos) {
            Some((v, e)) => if v < MAX_NUMBER {
                Some((v as i64, e))
            } else {
                None
            },
            None => None,
        };
        assert forall|n: int|
            #![trigger int_bytes(n)]
            -(MAX_NUMBER as int) < n < MAX_NUMBER as int && at(b@, pos as int, int_bytes(n)) && ends_number(
                b@,
                pos + int_bytes(n).len(),
            ) implies (r matches Some((v, e)) && v == n && e == pos + int_bytes(n).len()) by {
            if n < 0 {
                assert(b@.subrange(pos as int, pos + int_bytes(n).len())[0] == int_bytes(n)[0]);
            }
        }
        r
    }
}

proof fn lemma_at_concat(b: Seq<u8>, pos: int, x: Seq<u8>, y: Seq<u8>)
    ensures
        at(b, pos, x + y) <==> (at(b, pos, x) && at(b, pos + x.len(), y)),
{
    let xy = x + y;
    if at(b, pos, xy) {
        let w = b.subrange(pos, pos + xy.len());
        assert(w == xy);
        assert(b.subrange(pos, pos + x.len()) =~= x) by {
            assert forall|i: int| 0 <= i < x.len() implies b.subrange(pos, pos + x.len())[i] == x[i] by {
                assert(w[i] == xy[i]);
            }
        }
        assert(b.subrange(pos + x.len(), pos + x.len() + y.len()) =~= y) by {
            assert forall|i: int| 0 <= i < y.len() implies b.subrange(pos + x.len(), pos + x.len() + y.len())[i] == y[i] by {
                assert(w[x.len() + i] == xy[x.len() + i]);
            }
        }
    }
    if at(b, pos, x) && at(b, pos + x.len(), y) {
        assert(b.subrange(pos, pos + xy.len()) =~= xy) by {
            assert forall|i: int| 0 <= i < xy.len() implies b.subrange(pos, pos + xy.len())[i] == xy[i] by {
                if i < x.len() {
                    assert(b.subrange(pos, pos + x.len())[i] == x[i]);
                } else {
                    assert(b.subrange(pos + x.len(), pos + x.len() + y.len())[i - x.len()] == y[i
                        - x.len()]);
                }
            }
        }
    }
}

proof fn lemma_at_index(b: Seq<u8>, pos: int, x: Seq<u8>, i: int)
    requires
        at(b, pos, x),
        0 <= i < x.len(),
    ensures
        b[pos + i] == x[i],
{
    assert(b.subrange(pos, pos + x.len())[i] == x[i]);
}

proof fn lemma_ends_before(b: Seq<u8>, pos: int, x: Seq<u8>, y: Seq<u8>)
    requires
        at(b, pos, x + y),
        y.len() > 0,
        !is_digit(y[0]),
    ensures
        ends_number(b, pos + x.len()),
{
    lemma_at_concat(b, pos, x, y);
    lemma_at_index(b, pos + x.len(), y, 0);
}

fn parse_hex_digit(c: u8) -> (r: Option<u8>)
    ensures
        forall|d: int| 0 <= d < 16 && c == #[trigger] hex_digit(d) ==> r == Some(d as u8),
        r matches Some(d) ==> d < 16,
{
    if 48 <= c && c <= 57 {
        Some(c - 48)
    } else if 97 <= c && c <= 102 {
        Some(c - 87)
    } else {
        None
    }
}

fn parse_hex_byte(b: &[u8], pos: usize) -> (r: Option<u8>)
    requires
        pos + 2 <= b@.len(),
    ensures
        forall|v: u8| at(b@, pos as int, #[trigger] hex_byte(v)) ==> r == Some(v),
{
    let hi = parse_hex_digit(b[pos]);
    let lo = parse_hex_digit(b[pos + 1]);
    let r = match (hi, lo) {
        (Some(h), Some(l)) => Some(h * 16 + l),
        _ => None,
    };
    assert forall|v: u8| at(b@, pos as int, #[trigger] hex_byte(v)) implies r == Some(v) by {
        lemma_at_index(b@, pos as int, hex_byte(v), 0);
        lemma_at_index(b@, pos as int, hex_byte(v), 1);
        assert(b@[pos as int] == hex_digit((v / 16) as int));
        assert(b@[pos + 1] == hex_digit((v % 16) as int));
    }
    r
}

/// Reads `#rrggbbaa` at `pos`.
fn parse_color(b: &[u8], pos: usize) -> (r: Option<(Color, usize)>)
    ensures
        r matches Some((_, e)) ==> e == pos + 9 && e <= b@.len(),
        forall|c: Color| at(b@, pos as int, #[trigger] color_bytes(c)) ==> (r matches Some((v, e)) && v == c && e == pos + 9),
{
    if pos > b.len() || b.len() - pos < 9 || b[pos] != 35 {
        proof {
            assert forall|c: Color| !at(b@, pos as int, #[trigger] color_bytes(c)) by {
                if at(b@, pos as int, color_bytes(c)) {
                    lemma_at_index(b@, pos as int, color_bytes(c), 0);
                }
            }
        }
        return None;
    }
    let r = parse_hex_byte(b, pos + 1);
    let g = parse_hex_byte(b, pos + 3);
    let bl = parse_hex_byte(b, pos + 5);
    let a = parse_hex_byte(b, pos + 7);
    let res = match (r, g, bl, a) {
        (Some(r), Some(g), Some(bl), Some(a)) => Some((Color { r, g, b: bl, a }, pos + 9)),
        _ => None,
    };
    assert forall|c: Color| at(b@, pos as int, #[trigger] color_bytes(c)) implies (res matches Some((v, e)) && v == c && e == pos + 9) by {
        let x = color_bytes(c);
        assert(x =~= seq![35u8] + hex_byte(c.r) + hex_byte(c.g) + hex_byte(c.b) + hex_byte(c.a));
        lemma_at_concat(b@, pos as int, seq![35u8] + hex_byte(c.r) + hex_byte(c.g) + hex_byte(c.b), hex_byte(c.a));
        lemma_at_concat(b@, pos as int, seq![35u8] + hex_byte(c.r) + hex_byte(c.g), hex_byte(c.b));
        lemma_at_concat(b@, pos as int, seq![35u8] + hex_byte(c.r), hex_byte(c.g));
        lemma_at_concat(b@, pos as int, seq![35u8], hex_byte(c.r));
    }
    res
}

/// `point_bytes` split after its first number.
proof fn lemma_point_parts(b: Seq<u8>, pos: int, p: WorldPoint)
    requires
        at(b, pos, point_bytes(p)),
    ensures
        at(b, pos, seq![32u8]),
        at(b, pos + 1, int_bytes(p.x as int)),
        ends_number(b, pos + 1 + int_bytes(p.x as int).len()),
        at(b, pos + 1 + int_bytes(p.x as int).len(), seq![32u8]),
        at(b, pos + 2 + int_bytes(p.x as int).len(), int_bytes(p.y as int)),
        point_bytes(p).len() == 2 + int_bytes(p.x as int).len() + int_bytes(p.y as int).len(),
{
    let xs = int_bytes(p.x as int);
    let ys = int_bytes(p.y as int);
    assert(point_bytes(p) =~= seq![32u8] + (xs + (seq![32u8] + ys)));
    lemma_at_concat(b, pos, seq![32u8], xs + (seq![32u8] + ys));
    lemma_at_concat(b, pos + 1, xs, seq![32u8] + ys);
    lemma_ends_before(b, pos + 1, xs, seq![32u8] + ys);
    lemma_at_concat(b, pos + 1 + xs.len(), seq![32u8], ys);
}

/// Reads ` x y` at `pos`.
fn parse_point(b: &[u8], pos: usize) -> (r: Option<(WorldPoint, usize)>)
    ensures
        r matches Some((_, e)) ==> pos < e <= b@.len(),
        forall|p: WorldPoint|
            p.in_range() && at(b@, pos as int, #[trigger] point_bytes(p)) && ends_number(
                b@,
                pos + point_bytes(p).len(),
            ) ==> (r matches Some((v, e)) && v == p && e == pos + point_bytes(p).len()),
{
    let e0 = match expect_byte(b, pos, 32) {
        Some(e) => e,
        None => {
            proof {
                assert forall|p: WorldPoint|
                    p.in_range() && at(b@, pos as int, #[trigger] point_bytes(p)) implies false by {
                    lemma_point_parts(b@, pos as int, p);
                }
            }
            return None;
        },
    };
    let (x, e1) = match parse_int(b, e0) {
        Some(t) => t,
        None => {
            proof {
                assert forall|p: WorldPoint|
                    p.in_range() && at(b@, pos as int, #[trigger] point_bytes(p)) implies false by {
                    lemma_point_parts(b@, pos as int, p);
                    let n = p.x as int;
                    assert(e0 == pos + 1);
                    assert(at(b@, e0 as int, int_bytes(n)));
                    assert(ends_number(b@, e0 + int_bytes(n).len()));
                    assert(-(MAX_NUMBER as int) < n < MAX_NUMBER as int);
                }
            }
            return None;
        },
    };
    let e2 = match expect_byte(b, e1, 32) {
        Some(e) => e,
        None => {
            proof {
                assert forall|p: WorldPoint|
                    p.in_range() && at(b@, pos as int, #[trigger] point_bytes(p)) implies false by {
                    lemma_point_parts(b@, pos as int, p);
                    let n = p.x as int;
                    assert(at(b@, e0 as int, int_bytes(n)));
                    assert(ends_number(b@, e0 + int_bytes(n).len()));
                    assert(-(MAX_NUMBER as int) < n < MAX_NUMBER as int);
                }
            }
            return None;
        },
    };
    let r = match parse_int(b, e2) {
        Some((y, e3)) => Some((WorldPoint { x, y }, e3)),
        None => None,
    };
    assert forall|p: WorldPoint|
        p.in_range() && at(b@, pos as int, #[trigger] point_bytes(p)) && ends_number(
            b@,
            pos + point_bytes(p).len(),
        ) implies (r matches Some((v, e)) && v == p && e == pos + point_bytes(p).len()) by {
        lemma_point_parts(b@, pos as int, p);
        let n = p.x as int;
        assert(at(b@, e0 as int, int_bytes(n)));
        assert(ends_number(b@, e0 + int_bytes(n).len()));
        assert(-(MAX_NUMBER as int) < n < MAX_NUMBER as int);
        assert(x == p.x && e1 == pos + 1 + int_bytes(p.x as int).len());
        let m = p.y as int;
        assert(at(b@, e2 as int, int_bytes(m)));
        assert(ends_number(b@, e2 + int_bytes(m).len()));
        assert(-(MAX_NUMBER as int) < m < MAX_NUMBER as int);
    }
    r
}

proof fn lemma_command_parts(b: Seq<u8>, pos: int, c: PathCommand)
    requires
        at(b, pos, command_bytes(c)),
    ensures
        b[pos] == 32,
        pos + 2 <= b.len(),
        b[pos + 1] == match c {
            PathCommand::MoveTo(_) => 77u8,
            PathCommand::LineTo(_) => 76u8,
            PathCommand::CurveTo(..) => 67u8,
        },
        match c {
            PathCommand::MoveTo(p) => at(b, pos + 2, point_bytes(p)) && command_bytes(c).len() == 2
                + point_bytes(p).len(),
            PathCommand::LineTo(p) => at(b, pos + 2, point_bytes(p)) && command_bytes(c).len() == 2
                + point_bytes(p).len(),
            PathCommand::CurveTo(p1, p2, p3) => {
                let l1 = point_bytes(p1).len();
                let l2 = point_bytes(p2).len();
                &&& at(b, pos + 2, point_bytes(p1))
                &&& ends_number(b, pos + 2 + l1)
                &&& at(b, pos + 2 + l1, point_bytes(p2))
                &&& ends_number(b, pos + 2 + l1 + l2)
                &&& at(b, pos + 2 + l1 + l2, point_bytes(p3))
                &&& command_bytes(c).len() == 2 + l1 + l2 + point_bytes(p3).len()
            },
        },
{
    lemma_at_index(b, pos, command_bytes(c), 0);
    lemma_at_index(b, pos, command_bytes(c), 1);
    match c {
        PathCommand::MoveTo(p) => {
            lemma_at_concat(b, pos, seq![32u8, 77], point_bytes(p));
        },
        PathCommand::LineTo(p) => {
            lemma_at_concat(b, pos, seq![32u8, 76], point_bytes(p));
        },
        PathCommand::CurveTo(p1, p2, p3) => {
            let (x1, x2, x3) = (point_bytes(p1), point_bytes(p2), point_bytes(p3));
            assert(command_bytes(c) =~= seq![32u8, 67] + (x1 + (x2 + x3)));
            lemma_at_concat(b, pos, seq![32u8, 67], x1 + (x2 + x3));
            lemma_at_concat(b, pos + 2, x1, x2 + x3);
            lemma_at_concat(b, pos + 2 + x1.len(), x2, x3);
            assert((x2 + x3)[0] == 32);
            lemma_ends_before(b, pos + 2, x1, x2 + x3);
            assert(x3[0] == 32);
            lemma_ends_before(b, pos + 2 + x1.len(), x2, x3);
        },
    }
}

/// Reads one path step at `pos`.
fn parse_command(b: &[u8], pos: usize) -> (r: Option<(PathCommand, usize)>)
    ensures
        r matches Some((_, e)) ==> pos < e <= b@.len(),
        forall|c: PathCommand|
            c.in_range() && at(b@, pos as int, #[trigger] command_bytes(c)) && ends_number(
                b@,
                pos + command_bytes(c).len(),
            ) ==> (r matches Some((v, e)) && v == c && e == pos + command_bytes(c).len()),
{
    if pos >= b.len() || b.len() - pos < 2 || b[pos] != 32 {
        proof {
            assert forall|c: PathCommand| at(b@, pos as int, #[trigger] command_bytes(c)) implies false by {
                lemma_command_parts(b@, pos as int, c);
            }
        }
        return None;
    }
    let letter = b[pos + 1];
    if letter == 77 || letter == 76 {
        let r = match parse_point(b, pos + 2) {
            Some((p, e)) => Some((
                if letter == 77 {
                    PathCommand::MoveTo(p)
                } else {
                    PathCommand::LineTo(p)
                },
                e,
            )),
            None => None,
        };
        assert forall|c: PathCommand|
            c.in_range() && at(b@, pos as int, #[trigger] command_bytes(c)) && ends_number(
                b@,
                pos + command_bytes(c).len(),
            ) implies (r matches Some((v, e)) && v == c && e == pos + command_bytes(c).len()) by {
            lemma_command_parts(b@, pos as int, c);
        }
        r
    } else if letter == 67 {
        let (p1, e1) = match parse_point(b, pos + 2) {
            Some(t) => t,
            None => {
                proof {
                    assert forall|c: PathCommand|
                        c.in_range() && at(b@, pos as int, #[trigger] command_bytes(c)) implies false by {
                        lemma_command_parts(b@, pos as int, c);
                    }
                }
                return None;
            },
        };
        let (p2, e2) = match parse_point(b, e1) {
            Some(t) => t,
            None => {
                proof {
                    assert forall|c: PathCommand|
                        c.in_range() && at(b@, pos as int, #[trigger] command_bytes(c)) implies false by {
                        lemma_command_parts(b@, pos as int, c);
                    }
                }
                return None;
            },
        };
        let r = match parse_point(b, e2) {
            Some((p3, e3)) => Some((PathCommand::CurveTo(p1, p2, p3), e3)),
            None => None,
        };
        assert forall|c: PathCommand|
            c.in_range() && at(b@, pos as int, #[trigger] command_bytes(c)) && ends_number(
                b@,
                pos + command_bytes(c).len(),
            ) implies (r matches Some((v, e)) && v == c && e == pos + command_bytes(c).len()) by {
            lemma_command_parts(b@, pos as int, c);
        }
        r
    } else {
        proof {
            assert forall|c: PathCommand| at(b@, pos as int, #[trigger] command_bytes(c)) implies false by {
                lemma_command_parts(b@, pos as int, c);
            }
        }
        None
    }
}

pub open spec fn commands_bytes(cs: Seq<PathCommand>) -> Seq<u8> {
    concat_map(cs, |c: PathCommand| command_bytes(c))
}

pub open spec fn all_commands_in_range(cs: Seq<PathCommand>) -> bool {
    forall|i: int| 0 <= i < cs.len() ==> (#[trigger] cs[i]).in_range()
}

/// What follows the `k`-th step of a path up to its closing quote: the
/// bytes of the remaining steps, then the quote.
/// The bytes of a path's steps around its `k`-th step.
proof fn lemma_commands_split(cs: Seq<PathCommand>, k: int)
    requires
        0 <= k < cs.len(),
    ensures
        commands_bytes(cs) + seq![34u8] == commands_bytes(cs.take(k)) + (command_bytes(cs[k]) + (
        commands_bytes(cs.skip(k + 1)) + seq![34u8])),
        commands_bytes(cs.take(k + 1)) == commands_bytes(cs.take(k)) + command_bytes(cs[k]),
{
    let f = |c: PathCommand| command_bytes(c);
    lemma_concat_map_split(cs, f, k);
    lemma_concat_map_take(cs, f, k);
    assert(commands_bytes(cs) + seq![34u8] =~= commands_bytes(cs.take(k)) + (command_bytes(cs[k]) + (
    commands_bytes(cs.skip(k + 1)) + seq![34u8])));
}

/// What follows a path's steps begins with a space where a step follows, and
/// with the closing quote where none does.
proof fn lemma_commands_rest_start(rest: Seq<PathCommand>)
    ensures
        (commands_bytes(rest) + seq![34u8])[0] == if rest.len() > 0 {
            32u8
        } else {
            34u8
        },
{
    let f = |c: PathCommand| command_bytes(c);
    if rest.len() > 0 {
        lemma_concat_map_split(rest, f, 0);
        assert(rest.take(0) =~= Seq::<PathCommand>::empty());
        assert(concat_map(rest.take(0), f) =~= Seq::<u8>::empty());
        assert(command_bytes(rest[0])[0] == 32);
        assert((commands_bytes(rest) + seq![34u8])[0] == command_bytes(rest[0])[0]);
    } else {
        assert(commands_bytes(rest) =~= Seq::<u8>::empty());
    }
}

proof fn lemma_commands_step(cs: Seq<PathCommand>, k: int)
    requires
        0 <= k < cs.len(),
    ensures
        commands_bytes(cs) + seq![34u8] == commands_bytes(cs.take(k)) + (command_bytes(cs[k]) + (
        commands_bytes(cs.skip(k + 1)) + seq![34u8])),
        (commands_bytes(cs.skip(k + 1)) + seq![34u8])[0] == if k + 1 < cs.len() {
            32u8
        } else {
            34u8
        },
        commands_bytes(cs.take(k + 1)) == commands_bytes(cs.take(k)) + command_bytes(cs[k]),
{
    lemma_commands_split(cs, k);
    lemma_commands_rest_start(cs.skip(k + 1));
}

/// Reads the steps of a path at `pos`, up to its closing quote (not read).
fn parse_commands(b: &[u8], pos: usize) -> (r: Option<(Vec<PathCommand>, usize)>)
    ensures
        r matches Some((_, e)) ==> pos <= e <= b@.len(),
        forall|cs: Seq<PathCommand>|
            all_commands_in_range(cs) && at(b@, pos as int, #[trigger] commands_bytes(cs) + seq![34u8])
                ==> (r matches Some((v, e)) && v@ == cs && e == pos + commands_bytes(cs).len()),
{
    let mut v: Vec<PathCommand> = Vec::new();
    let mut i: usize = pos;
    if pos > b.len() {
        proof {
            assert forall|cs: Seq<PathCommand>|
                all_commands_in_range(cs) && at(b@, pos as int, #[trigger] commands_bytes(cs) + seq![34u8]) implies false by {
            }
        }
        return None;
    }
    proof {
        assert forall|cs: Seq<PathCommand>|
            all_commands_in_range(cs) && at(b@, pos as int, #[trigger] commands_bytes(cs) + seq![34u8]) implies
                v@ == cs.take(0) && i == pos + commands_bytes(cs.take(0)).len() by {
            assert(cs.take(0) =~= Seq::<PathCommand>::empty());
            assert(commands_bytes(cs.take(0)) =~= Seq::<u8>::empty());
        }
    }
    while i < b.len() && b[i] == 32
        invariant
            pos <= i <= b@.len(),
            forall|cs: Seq<PathCommand>|
                all_commands_in_range(cs) && at(b@, pos as int, #[trigger] commands_bytes(cs) + seq![34u8])
                    ==> v@.len() <= cs.len() && v@ == cs.take(v@.len() as int) && i == pos
                    + commands_bytes(cs.take(v@.len() as int)).len(),
        decreases b@.len() - i,
    {
        let ghost k = v@.len() as int;
        let ghost i0 = i;
        let ghost v0 = v@;
        let (c, e) = match parse_command(b, i) {
            Some(t) => t,
            None => {
                proof {
                    assert forall|cs: Seq<PathCommand>|
                        all_commands_in_range(cs) && at(b@, pos as int, #[trigger] commands_bytes(cs) + seq![34u8]) implies false by {
                        if k == cs.len() {
                            assert(cs.take(k) =~= cs);
                            lemma_at_concat(b@, pos as int, commands_bytes(cs), seq![34u8]);
                            lemma_at_index(b@, i as int, seq![34u8], 0);
                        } else {
                            lemma_commands_step(cs, k);
                            let pre = commands_bytes(cs.take(k));
                            let rest = commands_bytes(cs.skip(k + 1)) + seq![34u8];
                            lemma_at_concat(b@, pos as int, pre, command_bytes(cs[k]) + rest);
                            lemma_at_concat(b@, i as int, command_bytes(cs[k]), rest);
                            lemma_ends_before(b@, i as int, command_bytes(cs[k]), rest);
                        }
                    }
                }
                return None;
            },
        };
        v.push(c);
        i = e;
        proof {
            assert forall|cs: Seq<PathCommand>|
                all_commands_in_range(cs) && at(b@, pos as int, #[trigger] commands_bytes(cs) + seq![34u8]) implies
                    v@.len() <= cs.len() && v@ == cs.take(v@.len() as int) && i == pos
                    + commands_bytes(cs.take(v@.len() as int)).len() by {
                if k == cs.len() {
                    assert(cs.take(k) =~= cs);
                    lemma_at_concat(b@, pos as int, commands_bytes(cs), seq![34u8]);
                    lemma_at_index(b@, i0 as int, seq![34u8], 0);
                } else {
                    lemma_commands_step(cs, k);
                    let pre = commands_bytes(cs.take(k));
                    let rest = commands_bytes(cs.skip(k + 1)) + seq![34u8];
                    lemma_at_concat(b@, pos as int, pre, command_bytes(cs[k]) + rest);
                    lemma_at_concat(b@, i0 as int, command_bytes(cs[k]), rest);
                    lemma_ends_before(b@, i0 as int, command_bytes(cs[k]), rest);
                    assert(cs[k].in_range());
                    assert(c == cs[k]);
                    assert(v@ =~= cs.take(k + 1));
                }
            }
        }
    }
    proof {
        assert forall|cs: Seq<PathCommand>|
            all_commands_in_range(cs) && at(b@, pos as int, #[trigger] commands_bytes(cs) + seq![34u8]) implies
                v@ == cs && i == pos + commands_bytes(cs).len() by {
            let k = v@.len() as int;
            if k < cs.len() {
                lemma_commands_step(cs, k);
                let pre = commands_bytes(cs.take(k));
                let rest = commands_bytes(cs.skip(k + 1)) + seq![34u8];
                lemma_at_concat(b@, pos as int, pre, command_bytes(cs[k]) + rest);
                lemma_at_concat(b@, i as int, command_bytes(cs[k]), rest);
                lemma_command_parts(b@, i as int, cs[k]);
            }
            assert(cs.take(k) =~= cs);
        }
    }
    Some((v, i))
}

pub open spec fn stroke_part(s: Option<Stroke>) -> Seq<u8> {
    match s {
        None => none_bytes(),
        Some(st) => color_bytes(st.color) + width_bytes() + int_bytes(st.size as int),
    }
}

pub open spec fn fill_part(f: Option<Color>) -> Seq<u8> {
    match f {
        None => none_bytes(),
        Some(c) => color_bytes(c),
    }
}

proof fn lemma_style_parts(b: Seq<u8>, pos: int, s: Style)
    requires
        at(b, pos, style_bytes(s)),
    ensures
        at(b, pos, stroke_bytes()),
        at(b, pos + 9, stroke_part(s.stroke)),
        b[pos + 9] == if s.stroke is None { 110u8 } else { 35u8 },
        s.stroke matches Some(st) ==> {
            &&& at(b, pos + 9, color_bytes(st.color))
            &&& at(b, pos + 18, width_bytes())
            &&& at(b, pos + 34, int_bytes(st.size as int))
            &&& ends_number(b, pos + 34 + int_bytes(st.size as int).len())
        },
        at(b, pos + 9 + stroke_part(s.stroke).len(), seq![34u8]),
        at(b, pos + 10 + stroke_part(s.stroke).len(), fill_bytes()),
        at(b, pos + 17 + stroke_part(s.stroke).len(), fill_part(s.fill)),
        b[pos + 17 + stroke_part(s.stroke).len()] == if s.fill is None { 110u8 } else { 35u8 },
        style_bytes(s).len() == 17 + stroke_part(s.stroke).len() + fill_part(s.fill).len(),
{
    let x = stroke_part(s.stroke);
    let y = fill_part(s.fill);
    assert(style_bytes(s) =~= stroke_bytes() + (x + (seq![34u8] + (fill_bytes() + y))));
    lemma_at_concat(b, pos, stroke_bytes(), x + (seq![34u8] + (fill_bytes() + y)));
    lemma_at_concat(b, pos + 9, x, seq![34u8] + (fill_bytes() + y));
    lemma_at_concat(b, pos + 9 + x.len(), seq![34u8], fill_bytes() + y);
    lemma_at_concat(b, pos + 10 + x.len(), fill_bytes(), y);
    lemma_at_index(b, pos + 9, x, 0);
    lemma_at_index(b, pos + 17 + x.len(), y, 0);
    if let Some(st) = s.stroke {
        let c = color_bytes(st.color);
        let n = int_bytes(st.size as int);
        assert(x =~= c + (width_bytes() + n));
        lemma_at_concat(b, pos + 9, c, width_bytes() + n);
        lemma_at_concat(b, pos + 18, width_bytes(), n);
        lemma_at_concat(b, pos + 9, x, seq![34u8] + (fill_bytes() + y));
        lemma_at_index(b, pos + 9 + x.len(), seq![34u8], 0);
    }
}

fn stroke_token() -> (t: Vec<u8>)
    ensures
        t@ == stroke_bytes(),
{
    let t = vec![32u8, 115, 116, 114, 111, 107, 101, 61, 34];
    assert(t@ =~= stroke_bytes());
    t
}

fn width_token() -> (t: Vec<u8>)
    ensures
        t@ == width_bytes(),
{
    let t = vec![34u8, 32, 115, 116, 114, 111, 107, 101, 45, 119, 105, 100, 116, 104, 61, 34];
    assert(t@ =~= width_bytes());
    t
}

fn fill_token() -> (t: Vec<u8>)
    ensures
        t@ == fill_bytes(),
{
    let t = vec![32u8, 102, 105, 108, 108, 61, 34];
    assert(t@ =~= fill_bytes());
    t
}

fn none_token() -> (t: Vec<u8>)
    ensures
        t@ == none_bytes(),
{
    let t = vec![110u8, 111, 110, 101];
    assert(t@ =~= none_bytes());
    t
}

proof fn lemma_stroke_part(b: Seq<u8>, pos: int, st: Stroke)
    requires
        at(b, pos, stroke_part(Some(st))),
        ends_number(b, pos + stroke_part(Some(st)).len()),
    ensures
        at(b, pos, color_bytes(st.color)),
        at(b, pos + 9, width_bytes()),
        at(b, pos + 25, int_bytes(st.size as int)),
        ends_number(b, pos + 25 + int_bytes(st.size as int).len()),
        stroke_part(Some(st)).len() == 25 + int_bytes(st.size as int).len(),
{
    let c = color_bytes(st.color);
    let n = int_bytes(st.size as int);
    assert(stroke_part(Some(st)) =~= c + (width_bytes() + n));
    lemma_at_concat(b, pos, c, width_bytes() + n);
    lemma_at_concat(b, pos + 9, width_bytes(), n);
}

/// Reads `none` or a color, a width attribute and a thickness, at `pos`.
fn parse_stroke_part(b: &[u8], pos: usize) -> (r: Option<(Option<Stroke>, usize)>)
    ensures
        r matches Some((_, e)) ==> pos < e <= b@.len(),
        forall|st: Option<Stroke>|
            (st matches Some(x) ==> 0 <= x.size <= 1_000_000) && at(b@, pos as int, #[trigger] stroke_part(st))
                && ends_number(b@, pos + stroke_part(st).len()) ==> (r matches Some((v, e)) && v == st && e
                == pos + stroke_part(st).len()),
{
    if pos >= b.len() {
        return None;
    }
    if b[pos] == 110 {
        let r = match expect(b, pos, none_token()) {
            Some(e) => Some((None, e)),
            None => None,
        };
        proof {
            assert forall|st: Option<Stroke>|
                (st matches Some(x) ==> 0 <= x.size <= 1_000_000) && at(b@, pos as int, #[trigger] stroke_part(st))
                    && ends_number(b@, pos + stroke_part(st).len()) implies (r matches Some((v, e)) && v == st && e
                    == pos + stroke_part(st).len()) by {
                lemma_at_index(b@, pos as int, stroke_part(st), 0);
            }
        }
        r
    } else {
        let r = match parse_color(b, pos) {
            Some((c, ec)) => match expect(b, ec, width_token()) {
                Some(ew) => match parse_int(b, ew) {
                    Some((n, en)) => Some((Some(Stroke { color: c, size: n }), en)),
                    None => None,
                },
                None => None,
            },
            None => None,
        };
        proof {
            assert forall|st: Option<Stroke>|
                (st matches Some(x) ==> 0 <= x.size <= 1_000_000) && at(b@, pos as int, #[trigger] stroke_part(st))
                    && ends_number(b@, pos + stroke_part(st).len()) implies (r matches Some((v, e)) && v == st && e
                    == pos + stroke_part(st).len()) by {
                lemma_at_index(b@, pos as int, stroke_part(st), 0);
                if let Some(x) = st {
                    lemma_stroke_part(b@, pos as int, x);
                    assert(-(MAX_NUMBER as int) < x.size < MAX_NUMBER as int);
                }
            }
        }
        r
    }
}

/// Reads `none` or a color at `pos`.
fn parse_fill_part(b: &[u8], pos: usize) -> (r: Option<(Option<Color>, usize)>)
    ensures
        r matches Some((_, e)) ==> pos < e <= b@.len(),
        forall|f: Option<Color>|
            at(b@, pos as int, #[trigger] fill_part(f)) ==> (r matches Some((v, e)) && v == f && e == pos
                + fill_part(f).len()),
{
    if pos >= b.len() {
        return None;
    }
    let r = if b[pos] == 110 {
        match expect(b, pos, none_token()) {
            Some(e) => Some((None, e)),
            None => None,
        }
    } else {
        match parse_color(b, pos) {
            Some((c, e)) => Some((Some(c), e)),
            None => None,
        }
    };
    proof {
        assert forall|f: Option<Color>| at(b@, pos as int, #[trigger] fill_part(f)) implies (r matches Some((v, e))
            && v == f && e == pos + fill_part(f).len()) by {
            lemma_at_index(b@, pos as int, fill_part(f), 0);
        }
    }
    r
}

/// Reads the stroke and fill attributes at `pos`.
fn parse_style(b: &[u8], pos: usize) -> (r: Option<(Style, usize)>)
    ensures
        r matches Some((_, e)) ==> pos < e <= b@.len(),
        forall|s: Style|
            s.wf() && at(b@, pos as int, #[trigger] style_bytes(s)) ==> (r matches Some((v, e)) && v
                == s && e == pos + style_bytes(s).len()),
{
    let r = match expect(b, pos, stroke_token()) {
        None => None,
        Some(e0) => match parse_stroke_part(b, e0) {
            None => None,
            Some((stroke, e1)) => match expect_byte(b, e1, 34) {
                None => None,
                Some(e2) => match expect(b, e2, fill_token()) {
                    None => None,
                    Some(e3) => match parse_fill_part(b, e3) {
                        None => None,
                        Some((fill, e4)) => Some((Style { stroke, fill }, e4)),
                    },
                },
            },
        },
    };
    proof {
        assert forall|s: Style|
            s.wf() && at(b@, pos as int, #[trigger] style_bytes(s)) implies (r matches Some((v, e))
                && v == s && e == pos + style_bytes(s).len()) by {
            lemma_style_parts(b@, pos as int, s);
            let x = stroke_part(s.stroke);
            lemma_at_index(b@, pos + 9 + x.len(), seq![34u8], 0);
            assert(ends_number(b@, pos + 9 + x.len()));
        }
    }
    r
}

proof fn lemma_path_parts(b: Seq<u8>, pos: int, cs: Seq<PathCommand>, st: Style)
    requires
        at(b, pos, shape_bytes(ShapeView::Path { commands: cs, style: st })),
    ensures
        at(b, pos, path_open_bytes()),
        at(b, pos + 9, commands_bytes(cs) + seq![34u8]),
        at(b, pos + 9 + commands_bytes(cs).len(), seq![34u8]),
        at(b, pos + 10 + commands_bytes(cs).len(), style_bytes(st)),
        at(b, pos + 10 + commands_bytes(cs).len() + style_bytes(st).len(), close_tag_bytes()),
        shape_bytes(ShapeView::Path { commands: cs, style: st }).len() == 14 + commands_bytes(cs).len()
            + style_bytes(st).len(),
{
    let c = commands_bytes(cs);
    let sb = style_bytes(st);
    assert(shape_bytes(ShapeView::Path { commands: cs, style: st }) =~= path_open_bytes() + ((c
        + seq![34u8]) + (sb + close_tag_bytes())));
    lemma_at_concat(b, pos, path_open_bytes(), (c + seq![34u8]) + (sb + close_tag_bytes()));
    lemma_at_concat(b, pos + 9, c + seq![34u8], sb + close_tag_bytes());
    lemma_at_concat(b, pos + 9, c, seq![34u8]);
    lemma_at_concat(b, pos + 10 + c.len(), sb, close_tag_bytes());
}

proof fn lemma_ellipse_parts(b: Seq<u8>, pos: int, e: Ellipse, st: Style)
    requires
        at(b, pos, shape_bytes(ShapeView::Ellipse { ellipse: e, style: st })),
    ensures
        ({
            let n1 = int_bytes(e.center.x as int);
            let n2 = int_bytes(e.center.y as int);
            let n3 = int_bytes(e.semimajor as int);
            let n4 = int_bytes(e.semiminor as int);
            let p1 = pos + 13;
            let p2 = p1 + n1.len() + 6;
            let p3 = p2 + n2.len() + 6;
            let p4 = p3 + n3.len() + 6;
            let p5 = p4 + n4.len() + 1;
            &&& at(b, pos, ellipse_open_bytes())
            &&& at(b, p1, n1) && ends_number(b, p1 + n1.len())
            &&& at(b, p1 + n1.len(), attr_bytes(99, 121))
            &&& at(b, p2, n2) && ends_number(b, p2 + n2.len())
            &&& at(b, p2 + n2.len(), attr_bytes(114, 120))
            &&& at(b, p3, n3) && ends_number(b, p3 + n3.len())
            &&& at(b, p3 + n3.len(), attr_bytes(114, 121))
            &&& at(b, p4, n4) && ends_number(b, p4 + n4.len())
            &&& at(b, p4 + n4.len(), seq![34u8])
            &&& at(b, p5, style_bytes(st))
            &&& at(b, p5 + style_bytes(st).len(), close_tag_bytes())
            &&& shape_bytes(ShapeView::Ellipse { ellipse: e, style: st }).len() == p5 + style_bytes(
                st,
            ).len() + 4 - pos
        }),
{
    let n1 = int_bytes(e.center.x as int);
    let n2 = int_bytes(e.center.y as int);
    let n3 = int_bytes(e.semimajor as int);
    let n4 = int_bytes(e.semiminor as int);
    let a1 = attr_bytes(99, 121);
    let a2 = attr_bytes(114, 120);
    let a3 = attr_bytes(114, 121);
    let sb = style_bytes(st);
    let q = seq![34u8];
    let t = close_tag_bytes();
    assert(shape_bytes(ShapeView::Ellipse { ellipse: e, style: st }) =~= ellipse_open_bytes() + (n1
        + (a1 + (n2 + (a2 + (n3 + (a3 + (n4 + (q + (sb + t))))))))));
    lemma_at_concat(b, pos, ellipse_open_bytes(), n1 + (a1 + (n2 + (a2 + (n3 + (a3 + (n4 + (q + (sb + t)))))))));
    let p1 = pos + 13;
    lemma_at_concat(b, p1, n1, a1 + (n2 + (a2 + (n3 + (a3 + (n4 + (q + (sb + t))))))));
    lemma_ends_before(b, p1, n1, a1 + (n2 + (a2 + (n3 + (a3 + (n4 + (q + (sb + t))))))));
    lemma_at_concat(b, p1 + n1.len(), a1, n2 + (a2 + (n3 + (a3 + (n4 + (q + (sb + t)))))));
    let p2 = p1 + n1.len() + 6;
    lemma_at_concat(b, p2, n2, a2 + (n3 + (a3 + (n4 + (q + (sb + t))))));
    lemma_ends_before(b, p2, n2, a2 + (n3 + (a3 + (n4 + (q + (sb + t))))));
    lemma_at_concat(b, p2 + n2.len(), a2, n3 + (a3 + (n4 + (q + (sb + t)))));
    let p3 = p2 + n2.len() + 6;
    lemma_at_concat(b, p3, n3, a3 + (n4 + (q + (sb + t))));
    lemma_ends_before(b, p3, n3, a3 + (n4 + (q + (sb + t))));
    lemma_at_concat(b, p3 + n3.len(), a3, n4 + (q + (sb + t)));
    let p4 = p3 + n3.len() + 6;
    lemma_at_concat(b, p4, n4, q + (sb + t));
    lemma_ends_before(b, p4, n4, q + (sb + t));
    lemma_at_concat(b, p4 + n4.len(), q, sb + t);
    let p5 = p4 + n4.len() + 1;
    lemma_at_concat(b, p5, sb, t);
}

fn path_open_token() -> (t: Vec<u8>)
    ensures
        t@ == path_open_bytes(),
{
    let t = vec![60u8, 112, 97, 116, 104, 32, 100, 61, 34];
    assert(t@ =~= path_open_bytes());
    t
}

fn ellipse_open_token() -> (t: Vec<u8>)
    ensures
        t@ == ellipse_open_bytes(),
{
    let t = vec![60u8, 101, 108, 108, 105, 112, 115, 101, 32, 99, 120, 61, 34];
    assert(t@ =~= ellipse_open_bytes());
    t
}

fn attr_token(a: u8, c: u8) -> (t: Vec<u8>)
    ensures
        t@ == attr_bytes(a, c),
{
    let t = vec![34u8, 32, a, c, 61, 34];
    assert(t@ =~= attr_bytes(a, c));
    t
}

fn close_tag_token() -> (t: Vec<u8>)
    ensures
        t@ == close_tag_bytes(),
{
    let t = vec![34u8, 47, 62, 10];
    assert(t@ =~= close_tag_bytes());
    t
}

/// Reads a path element at `pos`.
fn parse_path(b: &[u8], pos: usize) -> (r: Option<(Shape, usize)>)
    ensures
        r matches Some((_, e)) ==> pos < e <= b@.len(),
        forall|cs: Seq<PathCommand>, st: Style|
            all_commands_in_range(cs) && st.wf() && at(
                b@,
                pos as int,
                #[trigger] shape_bytes(ShapeView::Path { commands: cs, style: st }),
            ) ==> (r matches Some((v, e)) && v@ == ShapeView::Path { commands: cs, style: st } && e
                == pos + shape_bytes(ShapeView::Path { commands: cs, style: st }).len()),
{
    let r = match expect(b, pos, path_open_token()) {
        None => None,
        Some(e0) => match parse_commands(b, e0) {
            None => None,
            Some((cmds, e1)) => match expect_byte(b, e1, 34) {
                None => None,
                Some(e2) => match parse_style(b, e2) {
                    None => None,
                    Some((style, e3)) => match expect(b, e3, close_tag_token()) {
                        None => None,
                        Some(e4) => Some((Shape::Path { commands: cmds, style }, e4)),
                    },
                },
            },
        },
    };
    proof {
        assert forall|cs: Seq<PathCommand>, st: Style|
            all_commands_in_range(cs) && st.wf() && at(
                b@,
                pos as int,
                #[trigger] shape_bytes(ShapeView::Path { commands: cs, style: st }),
            ) implies (r matches Some((v, e)) && v@ == ShapeView::Path { commands: cs, style: st } && e
                == pos + shape_bytes(ShapeView::Path { commands: cs, style: st }).len()) by {
            lemma_path_parts(b@, pos as int, cs, st);
        }
    }
    r
}

/// Reads an ellipse element at `pos`.
#[verifier::rlimit(80)]
fn parse_ellipse(b: &[u8], pos: usize) -> (r: Option<(Shape, usize)>)
    ensures
        r matches Some((_, e)) ==> pos < e <= b@.len(),
        forall|el: Ellipse, st: Style|
            el.wf() && st.wf() && at(
                b@,
                pos as int,
                #[trigger] shape_bytes(ShapeView::Ellipse { ellipse: el, style: st }),
            ) ==> (r matches Some((v, e)) && v@ == ShapeView::Ellipse { ellipse: el, style: st } && e
                == pos + shape_bytes(ShapeView::Ellipse { ellipse: el, style: st }).len()),
{
    let nums = match expect(b, pos, ellipse_open_token()) {
        None => None,
        Some(e0) => match parse_int(b, e0) {
            None => None,
            Some((cx, e1)) => match expect(b, e1, attr_token(99, 121)) {
                None => None,
                Some(e2) => match parse_int(b, e2) {
                    None => None,
                    Some((cy, e3)) => match expect(b, e3, attr_token(114, 120)) {
                        None => None,
                        Some(e4) => match parse_int(b, e4) {
                            None => None,
                            Some((rx, e5)) => match expect(b, e5, attr_token(114, 121)) {
                                None => None,
                                Some(e6) => match parse_int(b, e6) {
                                    None => None,
                                    Some((ry, e7)) => Some((cx, cy, rx, ry, e7)),
                                },
                            },
                        },
                    },
                },
            },
        },
    };
    proof {
        assert forall|el: Ellipse, st: Style|
            el.wf() && st.wf() && at(
                b@,
                pos as int,
                #[trigger] shape_bytes(ShapeView::Ellipse { ellipse: el, style: st }),
            ) implies (nums matches Some((cx, cy, rx, ry, e7)) && cx == el.center.x && cy == el.center.y
                && rx == el.semimajor && ry == el.semiminor && e7 == pos + 13 + int_bytes(el.center.x as int).len()
                + int_bytes(el.center.y as int).len() + int_bytes(el.semimajor as int).len()
                + int_bytes(el.semiminor as int).len() + 18) by {
            lemma_ellipse_parts(b@, pos as int, el, st);
            assert(-(MAX_NUMBER as int) < el.center.x < MAX_NUMBER as int);
            assert(-(MAX_NUMBER as int) < el.center.y < MAX_NUMBER as int);
            assert(-(MAX_NUMBER as int) < el.semimajor < MAX_NUMBER as int);
            assert(-(MAX_NUMBER as int) < el.semiminor < MAX_NUMBER as int);
        }
    }
    let r = match nums {
        None => None,
        Some((cx, cy, rx, ry, e7)) => match expect_byte(b, e7, 34) {
            None => None,
            Some(e8) => match parse_style(b, e8) {
                None => None,
                Some((style, e9)) => match expect(b, e9, close_tag_token()) {
                    None => None,
                    Some(e10) => Some((
                        Shape::Ellipse {
                            ellipse: Ellipse {
                                center: WorldPoint { x: cx, y: cy },
                                semimajor: rx,
                                semiminor: ry,
                            },
                            style,
                        },
                        e10,
                    )),
                },
            },
        },
    };
    proof {
        assert forall|el: Ellipse, st: Style|
            el.wf() && st.wf() && at(
                b@,
                pos as int,
                #[trigger] shape_bytes(ShapeView::Ellipse { ellipse: el, style: st }),
            ) implies (r matches Some((v, e)) && v@ == ShapeView::Ellipse { ellipse: el, style: st } && e
                == pos + shape_bytes(ShapeView::Ellipse { ellipse: el, style: st }).len()) by {
            lemma_ellipse_parts(b@, pos as int, el, st);
        }
    }
    r
}

/// Reads one shape element at `pos`.
fn parse_shape(b: &[u8], pos: usize) -> (r: Option<(Shape, usize)>)
    ensures
        r matches Some((_, e)) ==> pos < e <= b@.len(),
        forall|s: ShapeView|
            s.wf() && at(b@, pos as int, #[trigger] shape_bytes(s)) ==> (r matches Some((v, e)) && v@
                == s && e == pos + shape_bytes(s).len()),
{
    if pos >= b.len() || b.len() - pos < 2 {
        proof {
            assert forall|s: ShapeView| s.wf() && at(b@, pos as int, #[trigger] shape_bytes(s)) implies false by {
                match s {
                    ShapeView::Path { commands, style } => lemma_path_parts(b@, pos as int, commands, style),
                    ShapeView::Ellipse { ellipse, style } => lemma_ellipse_parts(b@, pos as int, ellipse, style),
                }
            }
        }
        return None;
    }
    let r = if b[pos + 1] == 112 {
        parse_path(b, pos)
    } else {
        parse_ellipse(b, pos)
    };
    proof {
        assert forall|s: ShapeView| s.wf() && at(b@, pos as int, #[trigger] shape_bytes(s)) implies (r matches Some((
            v,
            e,
        )) && v@ == s && e == pos + shape_bytes(s).len()) by {
            match s {
                ShapeView::Path { commands, style } => {
                    lemma_path_parts(b@, pos as int, commands, style);
                    lemma_at_index(b@, pos as int, path_open_bytes(), 1);
                    assert(all_commands_in_range(commands));
                },
                ShapeView::Ellipse { ellipse, style } => {
                    lemma_ellipse_parts(b@, pos as int, ellipse, style);
                    lemma_at_index(b@, pos as int, ellipse_open_bytes(), 1);
                },
            }
        }
    }
    r
}

pub open spec fn shapes_bytes(sv: Seq<ShapeView>) -> Seq<u8> {
    concat_map(sv, |s: ShapeView| shape_bytes(s))
}

proof fn lemma_shape_starts(s: ShapeView)
    ensures
        shape_bytes(s).len() >= 2,
        shape_bytes(s)[0] == 60,
        shape_bytes(s)[1] != 47,
{
    match s {
        ShapeView::Path { commands, style } => {
            assert(shape_bytes(s)[0] == path_open_bytes()[0]);
            assert(shape_bytes(s)[1] == path_open_bytes()[1]);
        },
        ShapeView::Ellipse { ellipse, style } => {
            assert(shape_bytes(s)[0] == ellipse_open_bytes()[0]);
            assert(shape_bytes(s)[1] == ellipse_open_bytes()[1]);
        },
    }
}

#[verifier::rlimit(80)]
proof fn lemma_shapes_step(sv: Seq<ShapeView>, k: int)
    requires
        0 <= k < sv.len(),
    ensures
        shapes_bytes(sv) + tail_bytes() == shapes_bytes(sv.take(k)) + (shape_bytes(sv[k]) + (
        shapes_bytes(sv.skip(k + 1)) + tail_bytes())),
        shapes_bytes(sv.take(k + 1)) == shapes_bytes(sv.take(k)) + shape_bytes(sv[k]),
{
    let f = |s: ShapeView| shape_bytes(s);
    lemma_concat_map_split(sv, f, k);
    lemma_concat_map_take(sv, f, k);
    assert(shapes_bytes(sv) + tail_bytes() =~= shapes_bytes(sv.take(k)) + (shape_bytes(sv[k]) + (
    shapes_bytes(sv.skip(k + 1)) + tail_bytes())));
}

/// Total length of the head, the background and its closing tag.
pub open spec fn prologue_len() -> int {
    head_bytes().len() + 13 as int
}

fn head_token() -> (t: Vec<u8>)
    ensures
        t@ == head_bytes(),
{
    let t = vec![
        60u8, 115, 118, 103, 32, 120, 109, 108, 110, 115, 61, 34, 104, 116, 116, 112, 58, 47, 47,
        119, 119, 119, 46, 119, 51, 46, 111, 114, 103, 47, 50, 48, 48, 48, 47, 115, 118, 103, 34,
        62, 10, 60, 103, 62, 10, 60, 114, 101, 99, 116, 32, 119, 105, 100, 116, 104, 61, 34, 49,
        48, 48, 37, 34, 32, 104, 101, 105, 103, 104, 116, 61, 34, 49, 48, 48, 37, 34, 32, 102,
        105, 108, 108, 61, 34
    ];
    assert(t@ =~= head_bytes());
    t
}

fn tail_token() -> (t: Vec<u8>)
    ensures
        t@ == tail_bytes(),
{
    let t = vec![60u8, 47, 103, 62, 10, 60, 47, 115, 118, 103, 62, 10];
    assert(t@ =~= tail_bytes());
    t
}

proof fn lemma_svg_parts(b: Seq<u8>, bg: Color, sv: Seq<ShapeView>)
    requires
        b == svg_bytes(bg, sv),
    ensures
        at(b, 0, head_bytes()),
        at(b, head_bytes().len() as int, color_bytes(bg)),
        at(b, head_bytes().len() + 9 as int, close_tag_bytes()),
        at(b, prologue_len(), shapes_bytes(sv) + tail_bytes()),
        b.len() == prologue_len() + shapes_bytes(sv).len() + tail_bytes().len(),
{
    let h = head_bytes();
    let c = color_bytes(bg);
    let t = close_tag_bytes();
    let rest = shapes_bytes(sv) + tail_bytes();
    assert(b =~= h + (c + (t + rest)));
    assert(b.subrange(0, b.len() as int) =~= b);
    lemma_at_concat(b, 0, h, c + (t + rest));
    lemma_at_concat(b, h.len() as int, c, t + rest);
    lemma_at_concat(b, h.len() + 9 as int, t, rest);
}

/// Reads a whole file: the background and the shapes.
#[verifier::rlimit(100)]
fn parse_svg(b: &[u8]) -> (r: Option<(Color, Vec<Shape>)>)
    ensures
        forall|bg: Color, sv: Seq<ShapeView>|
            crate::document::all_wf(sv) && b@ == #[trigger] svg_bytes(bg, sv) ==> (r matches Some((c, v)) && c
                == bg && crate::document::shape_views(v@) == sv),
{
    let (bg, e1) = match expect(b, 0, head_token()) {
        None => {
            proof {
                assert forall|bg: Color, sv: Seq<ShapeView>|
                    crate::document::all_wf(sv) && b@ == #[trigger] svg_bytes(bg, sv) implies false by {
                    lemma_svg_parts(b@, bg, sv);
                }
            }
            return None;
        },
        Some(e0) => match parse_color(b, e0) {
            Some(t) => t,
            None => {
                proof {
                    assert forall|bg: Color, sv: Seq<ShapeView>|
                        crate::document::all_wf(sv) && b@ == #[trigger] svg_bytes(bg, sv) implies false by {
                        lemma_svg_parts(b@, bg, sv);
                    }
                }
                return None;
            },
        },
    };
    let e2 = match expect(b, e1, close_tag_token()) {
        Some(e) => e,
        None => {
            proof {
                assert forall|bg: Color, sv: Seq<ShapeView>|
                    crate::document::all_wf(sv) && b@ == #[trigger] svg_bytes(bg, sv) implies false by {
                    lemma_svg_parts(b@, bg, sv);
                }
            }
            return None;
        },
    };
    proof {
        assert forall|c: Color, sv: Seq<ShapeView>|
            crate::document::all_wf(sv) && b@ == #[trigger] svg_bytes(c, sv) implies c == bg && e2
                == prologue_len() by {
            lemma_svg_parts(b@, c, sv);
        }
    }
    let mut v: Vec<Shape> = Vec::new();
    let mut i: usize = e2;
    proof {
        assert forall|c: Color, sv: Seq<ShapeView>|
            crate::document::all_wf(sv) && b@ == #[trigger] svg_bytes(c, sv) implies
                crate::document::shape_views(v@) == sv.take(0) && i == prologue_len()
                + shapes_bytes(sv.take(0)).len() by {
            lemma_svg_parts(b@, c, sv);
            assert(sv.take(0) =~= Seq::<ShapeView>::empty());
            assert(shapes_bytes(sv.take(0)) =~= Seq::<u8>::empty());
            assert(crate::document::shape_views(v@) =~= Seq::<ShapeView>::empty());
        }
    }
    while i < b.len() && b.len() - i >= 2 && b[i] == 60 && b[i + 1] != 47
        invariant
            i <= b@.len(),
            forall|c: Color, sv: Seq<ShapeView>|
                crate::document::all_wf(sv) && b@ == #[trigger] svg_bytes(c, sv) ==> c == bg
                    && v@.len() <= sv.len() && crate::document::shape_views(v@) == sv.take(
                    v@.len() as int,
                ) && i == prologue_len() + shapes_bytes(sv.take(v@.len() as int)).len(),
        decreases b@.len() - i,
    {
        let ghost k = v@.len() as int;
        let ghost i0 = i;
        let ghost v0 = v@;
        let (s, e) = match parse_shape(b, i) {
            Some(t) => t,
            None => {
                proof {
                    assert forall|c: Color, sv: Seq<ShapeView>|
                        crate::document::all_wf(sv) && b@ == #[trigger] svg_bytes(c, sv) implies false by {
                        lemma_svg_parts(b@, c, sv);
                        let rest = shapes_bytes(sv) + tail_bytes();
                        if k == sv.len() {
                            assert(sv.take(k) =~= sv);
                            lemma_at_concat(b@, prologue_len(), shapes_bytes(sv), tail_bytes());
                            lemma_at_index(b@, i0 as int, tail_bytes(), 1);
                        } else {
                            lemma_shapes_step(sv, k);
                            let pre = shapes_bytes(sv.take(k));
                            let post = shapes_bytes(sv.skip(k + 1)) + tail_bytes();
                            lemma_at_concat(b@, prologue_len(), pre, shape_bytes(sv[k]) + post);
                            lemma_at_concat(b@, i0 as int, shape_bytes(sv[k]), post);
                            assert(sv[k].wf());
                        }
                    }
                }
                return None;
            },
        };
        v.push(s);
        i = e;
        proof {
            assert forall|c: Color, sv: Seq<ShapeView>|
                crate::document::all_wf(sv) && b@ == #[trigger] svg_bytes(c, sv) implies c == bg
                    && v@.len() <= sv.len() && crate::document::shape_views(v@) == sv.take(
                    v@.len() as int,
                ) && i == prologue_len() + shapes_bytes(sv.take(v@.len() as int)).len() by {
                lemma_svg_parts(b@, c, sv);
                if k == sv.len() {
                    assert(sv.take(k) =~= sv);
                    lemma_at_concat(b@, prologue_len(), shapes_bytes(sv), tail_bytes());
                    lemma_at_index(b@, i0 as int, tail_bytes(), 1);
                } else {
                    lemma_shapes_step(sv, k);
                    let pre = shapes_bytes(sv.take(k));
                    let post = shapes_bytes(sv.skip(k + 1)) + tail_bytes();
                    lemma_at_concat(b@, prologue_len(), pre, shape_bytes(sv[k]) + post);
                    lemma_at_concat(b@, i0 as int, shape_bytes(sv[k]), post);
                    assert(sv[k].wf());
                    assert(s@ == sv[k]);
                    assert(crate::document::shape_views(v@) =~= sv.take(k + 1));
                }
            }
        }
    }
    let r = match expect(b, i, tail_token()) {
        Some(e) => if e == b.len() {
            Some((bg, v))
        } else {
            None
        },
        None => None,
    };
    proof {
        assert forall|c: Color, sv: Seq<ShapeView>|
            crate::document::all_wf(sv) && b@ == #[trigger] svg_bytes(c, sv) implies (r matches Some((
                x,
                w,
            )) && x == c && crate::document::shape_views(w@) == sv) by {
            lemma_svg_parts(b@, c, sv);
            let k = v@.len() as int;
            if k < sv.len() {
                lemma_shapes_step(sv, k);
                let pre = shapes_bytes(sv.take(k));
                let post = shapes_bytes(sv.skip(k + 1)) + tail_bytes();
                lemma_at_concat(b@, prologue_len(), pre, shape_bytes(sv[k]) + post);
                lemma_at_concat(b@, i as int, shape_bytes(sv[k]), post);
                lemma_shape_starts(sv[k]);
                lemma_at_index(b@, i as int, shape_bytes(sv[k]), 0);
                lemma_at_index(b@, i as int, shape_bytes(sv[k]), 1);
            }
            assert(sv.take(k) =~= sv);
            lemma_at_concat(b@, prologue_len(), shapes_bytes(sv), tail_bytes());
        }
    }
    r
}

fn path_wf_exec(cmds: &Vec<PathCommand>) -> (r: bool)
    ensures
        r == crate::shape::path_wf(cmds@),
{
    if cmds.len() < 2 {
        return false;
    }
    if !matches!(cmds[0], PathCommand::MoveTo(_)) {
        return false;
    }
    let mut i: usize = 0;
    while i < cmds.len()
        invariant
            i <= cmds@.len(),
            forall|j: int| 0 <= j < i ==> (#[trigger] cmds@[j]).in_range(),
        decreases cmds@.len() - i,
    {
        let ok = match cmds[i] {
            PathCommand::MoveTo(p) => point_in_range(p),
            PathCommand::LineTo(p) => point_in_range(p),
            PathCommand::CurveTo(a, c, p) => point_in_range(a) && point_in_range(c) && point_in_range(p),
        };
        if !ok {
            return false;
        }
        i = i + 1;
    }
    true
}

fn point_in_range(p: WorldPoint) -> (r: bool)
    ensures
        r == p.in_range(),
{
    let l = crate::units::WORLD_LIMIT;
    -l <= p.x && p.x <= l && -l <= p.y && p.y <= l
}

fn style_wf_exec(s: Style) -> (r: bool)
    ensures
        r == s.wf(),
{
    match s.stroke {
        Some(st) => 0 <= st.size && st.size <= crate::style::MAX_THICKNESS,
        None => true,
    }
}

/// Whether a shape is well formed.
pub fn shape_wf(s: &Shape) -> (r: bool)
    ensures
        r == s@.wf(),
{
    match s {
        Shape::Path { commands, style } => path_wf_exec(commands) && style_wf_exec(*style),
        Shape::Ellipse { ellipse, style } => {
            let m = crate::shape::MAX_RADIUS;
            point_in_range(ellipse.center) && 0 <= ellipse.semimajor && ellipse.semimajor <= m && 0
                <= ellipse.semiminor && ellipse.semiminor <= m && style_wf_exec(*style)
        },
    }
}

fn same_bytes(a: &Vec<u8>, b: &[u8]) -> (r: bool)
    ensures
        r == (a@ == b@),
{
    if a.len() != b.len() {
        return false;
    }
    let mut i: usize = 0;
    while i < a.len()
        invariant
            a@.len() == b@.len(),
            i <= a@.len(),
            forall|j: int| 0 <= j < i ==> a@[j] == b@[j],
        decreases a@.len() - i,
    {
        if a[i] != b[i] {
            return false;
        }
        i = i + 1;
    }
    assert(a@ =~= b@);
    true
}

/// Reads a file written by `write_svg`: its background and its shapes.
/// It succeeds exactly on the bytes that `write_svg` gives for some
/// background and well-formed shapes, and then hands back those.
pub fn read_svg(b: &[u8]) -> (r: Result<(Color, Vec<Shape>), ParseError>)
    ensures
        r matches Ok((c, v)) ==> crate::document::all_wf(crate::document::shape_views(v@))
            && svg_bytes(c, crate::document::shape_views(v@)) == b@,
        r is Err <==> !exists|c: Color, sv: Seq<ShapeView>|
            crate::document::all_wf(sv) && b@ == #[trigger] svg_bytes(c, sv),
        forall|c: Color, sv: Seq<ShapeView>|
            crate::document::all_wf(sv) && b@ == #[trigger] svg_bytes(c, sv) ==> (r matches Ok((x, v)) && x
                == c && crate::document::shape_views(v@) == sv),
{
    let (bg, shapes) = match parse_svg(b) {
        Some(t) => t,
        None => return Err(ParseError::Malformed),
    };
    let mut i: usize = 0;
    while i < shapes.len()
        invariant
            i <= shapes@.len(),
            forall|j: int| 0 <= j < i ==> (#[trigger] shapes@[j])@.wf(),
            forall|c: Color, sv: Seq<ShapeView>|
                crate::document::all_wf(sv) && b@ == #[trigger] svg_bytes(c, sv) ==> c == bg
                    && crate::document::shape_views(shapes@) == sv,
        decreases shapes@.len() - i,
    {
        if !shape_wf(&shapes[i]) {
            proof {
                assert(!crate::document::shape_views(shapes@)[i as int].wf());
            }
            return Err(ParseError::Malformed);
        }
        i = i + 1;
    }
    assert(crate::document::all_wf(crate::document::shape_views(shapes@))) by {
        assert forall|j: int| 0 <= j < shapes@.len() implies (#[trigger] crate::document::shape_views(shapes@)[j]).wf() by {
            assert(shapes@[j]@.wf());
        }
    }
    let written = write_svg(bg, &shapes);
    if same_bytes(&written, b) {
        Ok((bg, shapes))
    } else {
        Err(ParseError::Malformed)
    }
}

} // verus!
