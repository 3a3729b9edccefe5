use vstd::prelude::*;
use std::collections::HashMap;
use vstd::string::StringSliceAdditionalSpecFns;

verus! {

broadcast use vstd::std_specs::hash::group_hash_axioms;

/// Metrics of one glyph of a bitmap-font atlas, in atlas pixels.
#[derive(Clone, Copy, Debug, PartialEq, Eq, Structural)]
pub struct BMChar {
    pub id: u32,
    pub x: u32,
    pub y: u32,
    pub w: u32,
    pub h: u32,
    pub xoffset: i32,
    pub yoffset: i32,
    pub xadvance: i32,
}

/// A bitmap font: the atlas size, line metrics, and the glyphs keyed by character code.
pub struct BMFont {
    pub line_height: u32,
    pub base: u32,
    pub scale_w: u32,
    pub scale_h: u32,
    pub chars: HashMap<u32, BMChar>,
}


/// Why a font description was rejected.
#[derive(Clone, Copy, Debug, PartialEq, Eq, Structural)]
pub enum FontError {
    /// A field that the font uses holds no integer of the field's range.
    BadNumber,
}

/// The line metrics, atlas size and glyphs that a font description sets.
pub type FontFields = (u32, u32, u32, u32, Map<u32, BMChar>);

/// ASCII white space other than the newline that ends a line.
pub open spec fn is_space(c: u8) -> bool {
    c == 32 || c == 9 || c == 11 || c == 12 || c == 13
}

pub open spec fn is_digit(c: u8) -> bool {
    48 <= c <= 57
}

/// The lines of `s`, split at each newline.
pub open spec fn lines_of(s: Seq<u8>) -> Seq<Seq<u8>>
    decreases s.len(),
{
    if s.len() == 0 {
        seq![Seq::empty()]
    } else {
        let l = lines_of(s.drop_last());
        if s.last() == 10 {
            l.push(Seq::empty())
        } else {
            l.update(l.len() - 1, l.last().push(s.last()))
        }
    }
}

/// The maximal runs of non-space bytes of `s`, in order.
pub open spec fn tokens_of(s: Seq<u8>) -> Seq<Seq<u8>>
    decreases s.len(),
{
    if s.len() == 0 {
        Seq::empty()
    } else {
        let t = tokens_of(s.drop_last());
        if is_space(s.last()) {
            t
        } else if s.len() >= 2 && !is_space(s[s.len() - 2]) {
            t.update(t.len() - 1, t.last().push(s.last()))
        } else {
            t.push(seq![s.last()])
        }
    }
}

/// The value of a non-empty run of decimal digits.
pub open spec fn digits_value(s: Seq<u8>) -> int
    decreases s.len(),
{
    if s.len() == 0 {
        0
    } else {
        10 * digits_value(s.drop_last()) + (s.last() - 48)
    }
}

pub open spec fn all_digits(s: Seq<u8>) -> bool {
    s.len() > 0 && forall|i: int| 0 <= i < s.len() ==> is_digit(#[trigger] s[i])
}

/// The integer that `s` writes: digits, with an optional leading minus sign.
pub open spec fn num_value(s: Seq<u8>) -> Option<int> {
    if s.len() > 0 && s[0] == 45 {
        if all_digits(s.drop_first()) {
            Some(-digits_value(s.drop_first()))
        } else {
            None
        }
    } else if all_digits(s) {
        Some(digits_value(s))
    } else {
        None
    }
}

pub open spec fn as_u32(v: Seq<u8>) -> Option<u32> {
    match num_value(v) {
        Some(n) => if 0 <= n <= u32::MAX {
            Some(n as u32)
        } else {
            None
        },
        None => None,
    }
}

pub open spec fn as_i32(v: Seq<u8>) -> Option<i32> {
    match num_value(v) {
        Some(n) => if i32::MIN <= n <= i32::MAX {
            Some(n as i32)
        } else {
            None
        },
        None => None,
    }
}

/// The index of the first `=` of `s`.
pub open spec fn first_eq(s: Seq<u8>) -> Option<int>
    decreases s.len(),
{
    if s.len() == 0 {
        None
    } else {
        match first_eq(s.drop_last()) {
            Some(i) => Some(i),
            None => if s.last() == 61 {
                Some(s.len() - 1)
            } else {
                None
            },
        }
    }
}

pub open spec fn kw_common() -> Seq<u8> {
    seq![99u8, 111, 109, 109, 111, 110]
}

pub open spec fn kw_char() -> Seq<u8> {
    seq![99u8, 104, 97, 114]
}

pub open spec fn kw_line_height() -> Seq<u8> {
    seq![108u8, 105, 110, 101, 72, 101, 105, 103, 104, 116]
}

pub open spec fn kw_base() -> Seq<u8> {
    seq![98u8, 97, 115, 101]
}

pub open spec fn kw_scale_w() -> Seq<u8> {
    seq![115u8, 99, 97, 108, 101, 87]
}

pub open spec fn kw_scale_h() -> Seq<u8> {
    seq![115u8, 99, 97, 108, 101, 72]
}

pub open spec fn kw_id() -> Seq<u8> {
    seq![105u8, 100]
}

pub open spec fn kw_x() -> Seq<u8> {
    seq![120u8]
}

pub open spec fn kw_y() -> Seq<u8> {
    seq![121u8]
}

pub open spec fn kw_width() -> Seq<u8> {
    seq![119u8, 105, 100, 116, 104]
}

pub open spec fn kw_height() -> Seq<u8> {
    seq![104u8, 101, 105, 103, 104, 116]
}

pub open spec fn kw_xoffset() -> Seq<u8> {
    seq![120u8, 111, 102, 102, 115, 101, 116]
}

pub open spec fn kw_yoffset() -> Seq<u8> {
    seq![121u8, 111, 102, 102, 115, 101, 116]
}

pub open spec fn kw_xadvance() -> Seq<u8> {
    seq![120u8, 97, 100, 118, 97, 110, 99, 101]
}

/// A `common` line's token applied to `st`: a `key=value` token with a known key sets
/// that field; any other token leaves `st` as it is.
pub open spec fn common_token(st: FontFields, tok: Seq<u8>) -> Option<FontFields> {
    match first_eq(tok) {
        None => Some(st),
        Some(e) => {
            let k = tok.subrange(0, e);
            let v = tok.subrange(e + 1, tok.len() as int);
            if k == kw_line_height() {
                match as_u32(v) {
                    Some(n) => Some((n, st.1, st.2, st.3, st.4)),
                    None => None,
                }
            } else if k == kw_base() {
                match as_u32(v) {
                    Some(n) => Some((st.0, n, st.2, st.3, st.4)),
                    None => None,
                }
            } else if k == kw_scale_w() {
                match as_u32(v) {
                    Some(n) => Some((st.0, st.1, n, st.3, st.4)),
                    None => None,
                }
            } else if k == kw_scale_h() {
                match as_u32(v) {
                    Some(n) => Some((st.0, st.1, st.2, n, st.4)),
                    None => None,
                }
            } else {
                Some(st)
            }
        },
    }
}

pub open spec fn common_tokens(st: FontFields, toks: Seq<Seq<u8>>) -> Option<FontFields>
    decreases toks.len(),
{
    if toks.len() == 0 {
        Some(st)
    } else {
        match common_tokens(st, toks.drop_last()) {
            Some(s2) => common_token(s2, toks.last()),
            None => None,
        }
    }
}

pub open spec fn zero_char() -> BMChar {
    BMChar { id: 0, x: 0, y: 0, w: 0, h: 0, xoffset: 0, yoffset: 0, xadvance: 0 }
}

/// A `char` line's token applied to the glyph `c` read so far.
pub open spec fn char_token(c: BMChar, tok: Seq<u8>) -> Option<BMChar> {
    match first_eq(tok) {
        None => Some(c),
        Some(e) => {
            let k = tok.subrange(0, e);
            let v = tok.subrange(e + 1, tok.len() as int);
            if k == kw_id() {
                match as_u32(v) {
                    Some(n) => Some(BMChar { id: n, ..c }),
                    None => None,
                }
            } else if k == kw_x() {
                match as_u32(v) {
                    Some(n) => Some(BMChar { x: n, ..c }),
                    None => None,
                }
            } else if k == kw_y() {
                match as_u32(v) {
                    Some(n) => Some(BMChar { y: n, ..c }),
                    None => None,
                }
            } else if k == kw_width() {
                match as_u32(v) {
                    Some(n) => Some(BMChar { w: n, ..c }),
                    None => None,
                }
            } else if k == kw_height() {
                match as_u32(v) {
                    Some(n) => Some(BMChar { h: n, ..c }),
                    None => None,
                }
            } else if k == kw_xoffset() {
                match as_i32(v) {
                    Some(n) => Some(BMChar { xoffset: n, ..c }),
                    None => None,
                }
            } else if k == kw_yoffset() {
                match as_i32(v) {
                    Some(n) => Some(BMChar { yoffset: n, ..c }),
                    None => None,
                }
            } else if k == kw_xadvance() {
                match as_i32(v) {
                    Some(n) => Some(BMChar { xadvance: n, ..c }),
                    None => None,
                }
            } else {
                Some(c)
            }
        },
    }
}

pub open spec fn char_tokens(toks: Seq<Seq<u8>>) -> Option<BMChar>
    decreases toks.len(),
{
    if toks.len() == 0 {
        Some(zero_char())
    } else {
        match char_tokens(toks.drop_last()) {
            Some(c) => char_token(c, toks.last()),
            None => None,
        }
    }
}

/// One line applied to `st`: a `common` line sets line metrics and atlas size, a `char`
/// line adds or replaces the glyph of its id, and other lines change nothing.
pub open spec fn apply_line(st: FontFields, line: Seq<u8>) -> Option<FontFields> {
    let toks = tokens_of(line);
    if toks.len() > 0 && toks[0] == kw_common() {
        common_tokens(st, toks)
    } else if toks.len() > 0 && toks[0] == kw_char() {
        match char_tokens(toks) {
            Some(c) => Some((st.0, st.1, st.2, st.3, st.4.insert(c.id, c))),
            None => None,
        }
    } else {
        Some(st)
    }
}

pub open spec fn apply_lines(ls: Seq<Seq<u8>>) -> Option<FontFields>
    decreases ls.len(),
{
    if ls.len() == 0 {
        Some((0u32, 0u32, 0u32, 0u32, Map::empty()))
    } else {
        match apply_lines(ls.drop_last()) {
            Some(st) => apply_line(st, ls.last()),
            None => None,
        }
    }
}

/// What the font description `s` sets, or `None` when a field it uses is malformed.
pub open spec fn parse_fnt(s: Seq<u8>) -> Option<FontFields> {
    apply_lines(lines_of(s))
}

pub open spec fn views(v: Seq<Vec<u8>>) -> Seq<Seq<u8>> {
    Seq::new(v.len(), |i: int| v[i]@)
}

/// The bound at which integer reading stops growing its value: above every field's range.
pub const NUM_CAP: i64 = 0x2_0000_0000;

pub open spec fn clamp(n: int) -> int {
    if n > NUM_CAP {
        NUM_CAP as int
    } else if n < -NUM_CAP {
        -NUM_CAP
    } else {
        n
    }
}

/// The fields that `f` holds, as the format's model states them.
pub open spec fn fields(f: BMFont) -> FontFields {
    (f.line_height, f.base, f.scale_w, f.scale_h, f.chars@)
}

/// The lines of `b`.
fn split_lines(b: &[u8]) -> (r: Vec<Vec<u8>>)
    ensures
        views(r@) == lines_of(b@),
{
    let mut done: Vec<Vec<u8>> = Vec::new();
    let mut cur: Vec<u8> = Vec::new();
    let mut i: usize = 0;
    while i < b.len()
        invariant
            i <= b@.len(),
            views(done@).push(cur@) == lines_of(b@.subrange(0, i as int)),
        decreases b@.len() - i,
    {
        let ghost pre = b@.subrange(0, i as int);
        assert(b@.subrange(0, i + 1).drop_last() == pre);
        let c = b[i];
        if c == 10 {
            let ghost old_done = done@;
            done.push(cur);
            cur = Vec::new();
            assert(views(done@) =~= views(old_done).push(done@.last()@));
            assert(views(done@).push(cur@) =~= lines_of(pre).push(Seq::empty()));
        } else {
            cur.push(c);
            assert(views(done@).push(cur@) =~= lines_of(pre).update(
                lines_of(pre).len() - 1,
                lines_of(pre).last().push(c),
            ));
        }
        i = i + 1;
    }
    let ghost old_done = done@;
    done.push(cur);
    assert(b@.subrange(0, b@.len() as int) == b@);
    assert(views(done@) =~= views(old_done).push(done@.last()@));
    done
}

/// The tokens of `line`: its maximal runs of non-space bytes.
fn split_tokens(line: &Vec<u8>) -> (r: Vec<Vec<u8>>)
    ensures
        views(r@) == tokens_of(line@),
{
    let mut done: Vec<Vec<u8>> = Vec::new();
    let mut cur: Vec<u8> = Vec::new();
    let mut i: usize = 0;
    while i < line.len()
        invariant
            i <= line@.len(),
            cur@.len() > 0 <==> (i > 0 && !is_space(line@[i - 1])),
            (if cur@.len() > 0 {
                views(done@).push(cur@)
            } else {
                views(done@)
            }) == tokens_of(line@.subrange(0, i as int)),
        decreases line@.len() - i,
    {
        let ghost pre = line@.subrange(0, i as int);
        let ghost nxt = line@.subrange(0, i + 1);
        assert(nxt.drop_last() == pre);
        let c = line[i];
        let space = c == 32 || c == 9 || c == 11 || c == 12 || c == 13;
        if space {
            if cur.len() > 0 {
                let ghost old_done = done@;
                done.push(cur);
                cur = Vec::new();
                assert(views(done@) =~= views(old_done).push(done@.last()@));
            }
        } else {
            let was_empty = cur.len() == 0;
            cur.push(c);
            if !was_empty {
                assert(nxt[nxt.len() - 2] == line@[i - 1]);
                assert(views(done@).push(cur@) =~= tokens_of(pre).update(
                    tokens_of(pre).len() - 1,
                    tokens_of(pre).last().push(c),
                ));
            } else {
                assert(i >= 1 ==> nxt[nxt.len() - 2] == line@[i - 1]);
                assert(cur@ =~= seq![c]);
                assert(views(done@) == tokens_of(pre));
                assert(tokens_of(nxt) == tokens_of(pre).push(seq![c]));
            }
        }
        i = i + 1;
    }
    assert(line@.subrange(0, line@.len() as int) == line@);
    if cur.len() > 0 {
        let ghost old_done = done@;
        done.push(cur);
        assert(views(done@) =~= views(old_done).push(done@.last()@));
    }
    done
}

/// The index of the first `=` of `tok`.
fn find_eq(tok: &Vec<u8>) -> (r: Option<usize>)
    ensures
        r matches Some(i) ==> first_eq(tok@) == Some(i as int) && i < tok@.len(),
        r is None ==> first_eq(tok@) is None,
{
    let mut i: usize = 0;
    while i < tok.len()
        invariant
            i <= tok@.len(),
            first_eq(tok@.subrange(0, i as int)) is None,
        decreases tok@.len() - i,
    {
        assert(tok@.subrange(0, i + 1).drop_last() == tok@.subrange(0, i as int));
        if tok[i] == 61 {
            proof {
                lemma_first_eq_prefix(tok@, i + 1);
            }
            return Some(i);
        }
        i = i + 1;
    }
    assert(tok@.subrange(0, tok@.len() as int) == tok@);
    None
}

/// Once a prefix has an `=`, the whole sequence has its first `=` at the same place.
proof fn lemma_first_eq_prefix(s: Seq<u8>, n: int)
    requires
        0 <= n <= s.len(),
        first_eq(s.subrange(0, n)) is Some,
    ensures
        first_eq(s) == first_eq(s.subrange(0, n)),
    decreases s.len() - n,
{
    if n < s.len() {
        assert(s.subrange(0, n + 1).drop_last() == s.subrange(0, n));
        lemma_first_eq_prefix(s, n + 1);
    } else {
        assert(s.subrange(0, n) == s);
    }
}

/// The bytes of `v` from `lo` to `hi`.
fn sub_bytes(v: &Vec<u8>, lo: usize, hi: usize) -> (r: Vec<u8>)
    requires
        lo <= hi <= v@.len(),
    ensures
        r@ == v@.subrange(lo as int, hi as int),
{
    let mut out: Vec<u8> = Vec::new();
    let mut i: usize = lo;
    while i < hi
        invariant
            lo <= i <= hi <= v@.len(),
            out@ == v@.subrange(lo as int, i as int),
        decreases hi - i,
    {
        out.push(v[i]);
        i = i + 1;
        assert(out@ =~= v@.subrange(lo as int, i as int));
    }
    out
}

fn same_bytes(a: &Vec<u8>, b: &Vec<u8>) -> (r: bool)
    ensures
        r == (a@ == b@),
{
    if a.len() != b.len() {
        return false;
    }
    let mut i: usize = 0;
    while i < a.len()
        invariant
            a@.len() == b@.len(),
            i <= a@.len(),
            forall|k: int| 0 <= k < i ==> a@[k] == b@[k],
        decreases a@.len() - i,
    {
        if a[i] != b[i] {
            return false;
        }
        i = i + 1;
    }
    assert(a@ =~= b@);
    true
}

/// The value of the digits `v[from..]`, held at `NUM_CAP` once it grows past it.
fn read_digits(v: &Vec<u8>, from: usize) -> (r: Option<i64>)
    requires
        from <= v@.len(),
    ensures
        all_digits(v@.subrange(from as int, v@.len() as int)) <==> r is Some,
        r matches Some(x) ==> x == clamp(digits_value(v@.subrange(from as int, v@.len() as int)))
            && digits_value(v@.subrange(from as int, v@.len() as int)) >= 0,
{
    if from >= v.len() {
        return None;
    }
    let mut acc: i64 = 0;
    let mut i: usize = from;
    while i < v.len()
        invariant
            from <= i <= v@.len(),
            forall|k: int| from <= k < i ==> is_digit(#[trigger] v@[k]),
            digits_value(v@.subrange(from as int, i as int)) >= 0,
            acc == clamp(digits_value(v@.subrange(from as int, i as int))),
        decreases v@.len() - i,
    {
        let c = v[i];
        if c < 48 || c > 57 {
            proof {
                let s = v@.subrange(from as int, v@.len() as int);
                assert(s[i - from] == c);
            }
            return None;
        }
        assert(v@.subrange(from as int, i + 1).drop_last() == v@.subrange(from as int, i as int));
        let d = (c - 48) as i64;
        if acc >= NUM_CAP {
            acc = NUM_CAP;
        } else {
            let grown = acc * 10 + d;
            acc = if grown > NUM_CAP {
                NUM_CAP
            } else {
                grown
            };
        }
        i = i + 1;
    }
    proof {
        let s = v@.subrange(from as int, v@.len() as int);
        assert forall|k: int| 0 <= k < s.len() implies is_digit(#[trigger] s[k]) by {
            assert(s[k] == v@[from + k]);
        }
    }
    Some(acc)
}

/// The integer that `v` writes, held within `NUM_CAP` of zero.
fn read_int(v: &Vec<u8>) -> (r: Option<i64>)
    ensures
        r is Some <==> num_value(v@) is Some,
        r matches Some(x) ==> x == clamp(num_value(v@)->Some_0),
{
    if v.len() > 0 && v[0] == 45 {
        assert(v@.subrange(1, v@.len() as int) == v@.drop_first());
        match read_digits(v, 1) {
            Some(x) => Some(-x),
            None => None,
        }
    } else {
        assert(v@.subrange(0, v@.len() as int) == v@);
        read_digits(v, 0)
    }
}

fn read_u32(v: &Vec<u8>) -> (r: Option<u32>)
    ensures
        r == as_u32(v@),
{
    match read_int(v) {
        Some(x) => if 0 <= x && x <= 0xffff_ffff {
            Some(x as u32)
        } else {
            None
        },
        None => None,
    }
}

fn read_i32(v: &Vec<u8>) -> (r: Option<i32>)
    ensures
        r == as_i32(v@),
{
    match read_int(v) {
        Some(x) => if -0x8000_0000 <= x && x <= 0x7fff_ffff {
            Some(x as i32)
        } else {
            None
        },
        None => None,
    }
}

fn word_common() -> (r: Vec<u8>)
    ensures
        r@ == kw_common(),
{
    let r = vec![99u8, 111, 109, 109, 111, 110];
    assert(r@ =~= kw_common());
    r
}

fn word_char() -> (r: Vec<u8>)
    ensures
        r@ == kw_char(),
{
    let r = vec![99u8, 104, 97, 114];
    assert(r@ =~= kw_char());
    r
}

fn word_line_height() -> (r: Vec<u8>)
    ensures
        r@ == kw_line_height(),
{
    let r = vec![108u8, 105, 110, 101, 72, 101, 105, 103, 104, 116];
    assert(r@ =~= kw_line_height());
    r
}

fn word_base() -> (r: Vec<u8>)
    ensures
        r@ == kw_base(),
{
    let r = vec![98u8, 97, 115, 101];
    assert(r@ =~= kw_base());
    r
}

fn word_scale_w() -> (r: Vec<u8>)
    ensures
        r@ == kw_scale_w(),
{
    let r = vec![115u8, 99, 97, 108, 101, 87];
    assert(r@ =~= kw_scale_w());
    r
}

fn word_scale_h() -> (r: Vec<u8>)
    ensures
        r@ == kw_scale_h(),
{
    let r = vec![115u8, 99, 97, 108, 101, 72];
    assert(r@ =~= kw_scale_h());
    r
}

fn word_id() -> (r: Vec<u8>)
    ensures
        r@ == kw_id(),
{
    let r = vec![105u8, 100];
    assert(r@ =~= kw_id());
    r
}

fn word_x() -> (r: Vec<u8>)
    ensures
        r@ == kw_x(),
{
    let r = vec![120u8];
    assert(r@ =~= kw_x());
    r
}

fn word_y() -> (r: Vec<u8>)
    ensures
        r@ == kw_y(),
{
    let r = vec![121u8];
    assert(r@ =~= kw_y());
    r
}

fn word_width() -> (r: Vec<u8>)
    ensures
        r@ == kw_width(),
{
    let r = vec![119u8, 105, 100, 116, 104];
    assert(r@ =~= kw_width());
    r
}

fn word_height() -> (r: Vec<u8>)
    ensures
        r@ == kw_height(),
{
    let r = vec![104u8, 101, 105, 103, 104, 116];
    assert(r@ =~= kw_height());
    r
}

fn word_xoffset() -> (r: Vec<u8>)
    ensures
        r@ == kw_xoffset(),
{
    let r = vec![120u8, 111, 102, 102, 115, 101, 116];
    assert(r@ =~= kw_xoffset());
    r
}

fn word_yoffset() -> (r: Vec<u8>)
    ensures
        r@ == kw_yoffset(),
{
    let r = vec![121u8, 111, 102, 102, 115, 101, 116];
    assert(r@ =~= kw_yoffset());
    r
}

fn word_xadvance() -> (r: Vec<u8>)
    ensures
        r@ == kw_xadvance(),
{
    let r = vec![120u8, 97, 100, 118, 97, 110, 99, 101];
    assert(r@ =~= kw_xadvance());
    r
}

/// Applies the tokens of a `common` line to `st`; false when a value is malformed.
fn apply_common(st: &mut BMFont, toks: &Vec<Vec<u8>>) -> (ok: bool)
    ensures
        ok <==> common_tokens(fields(*old(st)), views(toks@)) is Some,
        ok ==> common_tokens(fields(*old(st)), views(toks@)) == Some(fields(*final(st))),
{
    let mut i: usize = 0;
    while i < toks.len()
        invariant
            i <= toks@.len(),
            common_tokens(fields(*old(st)), views(toks@).subrange(0, i as int)) == Some(fields(*st)),
        decreases toks@.len() - i,
    {
        let ghost pre = views(toks@).subrange(0, i as int);
        let ghost nxt = views(toks@).subrange(0, i + 1);
        assert(nxt.drop_last() =~= pre);
        assert(nxt.last() == toks@[i as int]@);
        let tok = &toks[i];
        match find_eq(tok) {
            None => {},
            Some(e) => {
                let tl = tok.len();
                let k = sub_bytes(tok, 0, e);
                let v = sub_bytes(tok, e + 1, tl);
                if same_bytes(&k, &word_line_height()) {
                    match read_u32(&v) {
                        Some(n) => {
                            st.line_height = n;
                        },
                        None => {
                            proof { lemma_common_none_stays(fields(*old(st)), views(toks@), i + 1); }
                            return false;
                        },
                    }
                } else if same_bytes(&k, &word_base()) {
                    match read_u32(&v) {
                        Some(n) => {
                            st.base = n;
                        },
                        None => {
                            proof { lemma_common_none_stays(fields(*old(st)), views(toks@), i + 1); }
                            return false;
                        },
                    }
                } else if same_bytes(&k, &word_scale_w()) {
                    match read_u32(&v) {
                        Some(n) => {
                            st.scale_w = n;
                        },
                        None => {
                            proof { lemma_common_none_stays(fields(*old(st)), views(toks@), i + 1); }
                            return false;
                        },
                    }
                } else if same_bytes(&k, &word_scale_h()) {
                    match read_u32(&v) {
                        Some(n) => {
                            st.scale_h = n;
                        },
                        None => {
                            proof { lemma_common_none_stays(fields(*old(st)), views(toks@), i + 1); }
                            return false;
                        },
                    }
                }
            },
        }
        i = i + 1;
    }
    assert(views(toks@).subrange(0, toks@.len() as int) =~= views(toks@));
    true
}

/// Once the tokens read so far are malformed, the whole line is.
proof fn lemma_common_none_stays(st: FontFields, toks: Seq<Seq<u8>>, n: int)
    requires
        0 <= n <= toks.len(),
        common_tokens(st, toks.subrange(0, n)) is None,
    ensures
        common_tokens(st, toks) is None,
    decreases toks.len() - n,
{
    if n < toks.len() {
        assert(toks.subrange(0, n + 1).drop_last() =~= toks.subrange(0, n));
        lemma_common_none_stays(st, toks, n + 1);
    } else {
        assert(toks.subrange(0, n) =~= toks);
    }
}

proof fn lemma_char_none_stays(toks: Seq<Seq<u8>>, n: int)
    requires
        0 <= n <= toks.len(),
        char_tokens(toks.subrange(0, n)) is None,
    ensures
        char_tokens(toks) is None,
    decreases toks.len() - n,
{
    if n < toks.len() {
        assert(toks.subrange(0, n + 1).drop_last() =~= toks.subrange(0, n));
        lemma_char_none_stays(toks, n + 1);
    } else {
        assert(toks.subrange(0, n) =~= toks);
    }
}

proof fn lemma_lines_none_stays(ls: Seq<Seq<u8>>, n: int)
    requires
        0 <= n <= ls.len(),
        apply_lines(ls.subrange(0, n)) is None,
    ensures
        apply_lines(ls) is None,
    decreases ls.len() - n,
{
    if n < ls.len() {
        assert(ls.subrange(0, n + 1).drop_last() =~= ls.subrange(0, n));
        lemma_lines_none_stays(ls, n + 1);
    } else {
        assert(ls.subrange(0, n) =~= ls);
    }
}

/// The glyph that the tokens of a `char` line describe.
fn parse_char(toks: &Vec<Vec<u8>>) -> (r: Option<BMChar>)
    ensures
        r == char_tokens(views(toks@)),
{
    let mut c = BMChar { id: 0, x: 0, y: 0, w: 0, h: 0, xoffset: 0, yoffset: 0, xadvance: 0 };
    let mut i: usize = 0;
    while i < toks.len()
        invariant
            i <= toks@.len(),
            char_tokens(views(toks@).subrange(0, i as int)) == Some(c),
        decreases toks@.len() - i,
    {
        let ghost pre = views(toks@).subrange(0, i as int);
        let ghost nxt = views(toks@).subrange(0, i + 1);
        assert(nxt.drop_last() =~= pre);
        assert(nxt.last() == toks@[i as int]@);
        let tok = &toks[i];
        match find_eq(tok) {
            None => {},
            Some(e) => {
                let tl = tok.len();
                let k = sub_bytes(tok, 0, e);
                let v = sub_bytes(tok, e + 1, tl);
                let unsigned = if same_bytes(&k, &word_id()) {
                    Some(0u8)
                } else if same_bytes(&k, &word_x()) {
                    Some(1u8)
                } else if same_bytes(&k, &word_y()) {
                    Some(2u8)
                } else if same_bytes(&k, &word_width()) {
                    Some(3u8)
                } else if same_bytes(&k, &word_height()) {
                    Some(4u8)
                } else {
                    None
                };
                let signed = if unsigned.is_some() {
                    None
                } else if same_bytes(&k, &word_xoffset()) {
                    Some(0u8)
                } else if same_bytes(&k, &word_yoffset()) {
                    Some(1u8)
                } else if same_bytes(&k, &word_xadvance()) {
                    Some(2u8)
                } else {
                    None
                };
                if let Some(field) = unsigned {
                    match read_u32(&v) {
                        Some(n) => {
                            if field == 0 {
                                c.id = n;
                            } else if field == 1 {
                                c.x = n;
                            } else if field == 2 {
                                c.y = n;
                            } else if field == 3 {
                                c.w = n;
                            } else {
                                c.h = n;
                            }
                        },
                        None => {
                            proof { lemma_char_none_stays(views(toks@), i + 1); }
                            return None;
                        },
                    }
                } else if let Some(field) = signed {
                    match read_i32(&v) {
                        Some(n) => {
                            if field == 0 {
                                c.xoffset = n;
                            } else if field == 1 {
                                c.yoffset = n;
                            } else {
                                c.xadvance = n;
                            }
                        },
                        None => {
                            proof { lemma_char_none_stays(views(toks@), i + 1); }
                            return None;
                        },
                    }
                }
            },
        }
        i = i + 1;
    }
    assert(views(toks@).subrange(0, toks@.len() as int) =~= views(toks@));
    Some(c)
}

impl BMFont {
    /// Reads a bitmap-font description: `common` lines give the line metrics and atlas
    /// size, each `char` line one glyph, as space-separated `key=value` tokens. Fails when
    /// a value of a field it reads is not an integer of that field's range.
    pub fn from_fnt(text: &str) -> (r: Result<BMFont, FontError>)
        ensures
            r is Ok <==> parse_fnt(text.spec_bytes()) is Some,
            r matches Ok(f) ==> parse_fnt(text.spec_bytes()) == Some(fields(f)),
    {
        let bytes = text.as_bytes();
        let lines = split_lines(bytes);
        let mut font = BMFont { line_height: 0, base: 0, scale_w: 0, scale_h: 0, chars: HashMap::new() };
        let mut i: usize = 0;
        proof {
            assert(views(lines@).subrange(0, 0) =~= Seq::<Seq<u8>>::empty());
            assert(fields(font) =~= (0u32, 0u32, 0u32, 0u32, Map::<u32, BMChar>::empty()));
        }
        while i < lines.len()
            invariant
                i <= lines@.len(),
                views(lines@) == lines_of(bytes@),
                bytes@ == text.spec_bytes(),
                apply_lines(views(lines@).subrange(0, i as int)) == Some(fields(font)),
            decreases lines@.len() - i,
        {
            let ghost pre = views(lines@).subrange(0, i as int);
            let ghost nxt = views(lines@).subrange(0, i + 1);
            assert(nxt.drop_last() =~= pre);
            assert(nxt.last() == lines@[i as int]@);
            let toks = split_tokens(&lines[i]);
            if toks.len() > 0 && same_bytes(&toks[0], &word_common()) {
                assert(views(toks@)[0] == toks@[0]@);
                if !apply_common(&mut font, &toks) {
                    proof { lemma_lines_none_stays(views(lines@), i + 1); }
                    return Err(FontError::BadNumber);
                }
            } else if toks.len() > 0 && same_bytes(&toks[0], &word_char()) {
                assert(views(toks@)[0] == toks@[0]@);
                assert(kw_common() != kw_char()) by {
                    assert(kw_common().len() != kw_char().len());
                }
                match parse_char(&toks) {
                    None => {
                        proof { lemma_lines_none_stays(views(lines@), i + 1); }
                        return Err(FontError::BadNumber);
                    },
                    Some(c) => {
                        font.chars.insert(c.id, c);
                    },
                }
            } else {
                assert(toks@.len() > 0 ==> views(toks@)[0] == toks@[0]@);
            }
            i = i + 1;
        }
        assert(views(lines@).subrange(0, lines@.len() as int) =~= views(lines@));
        Ok(font)
    }
}

} // verus!
