//! Byte-level lexing of mesh text lines: whitespace tokens, float literals
//! and face vertex references.

use vstd::prelude::*;

verus! {

/// ASCII whitespace: tab, line feed, vertical tab, form feed, carriage
/// return and space.
pub open spec fn is_ws(b: u8) -> bool {
    b == 9 || b == 10 || b == 11 || b == 12 || b == 13 || b == 32
}

/// Byte length of the whitespace character that `s` starts with, in UTF-8,
/// or zero when it starts with none. Whitespace is Unicode's White_Space:
/// the ASCII ones, U+0085, U+00A0, U+1680, U+2000 to U+200A, U+2028, U+2029,
/// U+202F, U+205F and U+3000.
pub open spec fn ws_len(s: Seq<u8>) -> nat {
    if s.len() >= 1 && is_ws(s[0]) {
        1
    } else if s.len() >= 2 && s[0] == 0xC2 && (s[1] == 0x85 || s[1] == 0xA0) {
        2
    } else if s.len() >= 3 && ((s[0] == 0xE1 && s[1] == 0x9A && s[2] == 0x80) || (s[0] == 0xE2
        && s[1] == 0x80 && ((0x80 <= s[2] && s[2] <= 0x8A) || s[2] == 0xA8 || s[2] == 0xA9
        || s[2] == 0xAF)) || (s[0] == 0xE2 && s[1] == 0x81 && s[2] == 0x9F) || (s[0] == 0xE3
        && s[1] == 0x80 && s[2] == 0x80)) {
        3
    } else {
        0
    }
}

pub open spec fn is_digit(b: u8) -> bool {
    48 <= b <= 57
}

pub open spec fn all_digits(s: Seq<u8>) -> bool {
    forall|i: int| 0 <= i < s.len() ==> is_digit(#[trigger] s[i])
}

/// The whitespace-separated words of `s`, where `cur` is a word already begun.
pub open spec fn tokens_from(s: Seq<u8>, cur: Seq<u8>) -> Seq<Seq<u8>>
    decreases s.len(),
{
    if s.len() == 0 {
        if cur.len() == 0 {
            seq![]
        } else {
            seq![cur]
        }
    } else if ws_len(s) > 0 {
        let done = if cur.len() == 0 {
            Seq::<Seq<u8>>::empty()
        } else {
            seq![cur]
        };
        done + tokens_from(s.skip(ws_len(s) as int), seq![])
    } else {
        tokens_from(s.drop_first(), cur.push(s[0]))
    }
}

/// The whitespace-separated words of `s`, in order.
pub open spec fn tokens(s: Seq<u8>) -> Seq<Seq<u8>> {
    tokens_from(s, seq![])
}

pub open spec fn views(v: Seq<Vec<u8>>) -> Seq<Seq<u8>> {
    v.map_values(|x: Vec<u8>| x@)
}

/// Number of leading decimal digits of `s`.
pub open spec fn digit_len(s: Seq<u8>) -> nat
    decreases s.len(),
{
    if s.len() > 0 && is_digit(s[0]) {
        1 + digit_len(s.drop_first())
    } else {
        0
    }
}

/// `s` without one leading `+` or `-`.
pub open spec fn unsigned_part(s: Seq<u8>) -> Seq<u8> {
    if s.len() > 0 && (s[0] == 43 || s[0] == 45) {
        s.drop_first()
    } else {
        s
    }
}

pub open spec fn lower(b: u8) -> u8 {
    if 65 <= b <= 90 {
        (b + 32) as u8
    } else {
        b
    }
}

/// `s` equals the lower-case word `w` when ASCII case is ignored.
pub open spec fn eq_ignore_case(s: Seq<u8>, w: Seq<u8>) -> bool {
    s.len() == w.len() && forall|i: int| 0 <= i < s.len() ==> lower(#[trigger] s[i]) == w[i]
}

pub open spec fn word_inf() -> Seq<u8> {
    seq![105u8, 110u8, 102u8]
}

pub open spec fn word_infinity() -> Seq<u8> {
    seq![105u8, 110u8, 102u8, 105u8, 110u8, 105u8, 116u8, 121u8]
}

pub open spec fn word_nan() -> Seq<u8> {
    seq![110u8, 97u8, 110u8]
}

/// An empty tail, or `e`/`E`, an optional sign and at least one digit.
pub open spec fn exponent_ok(r: Seq<u8>) -> bool {
    r.len() == 0 || ((r[0] == 101 || r[0] == 69) && unsigned_part(r.drop_first()).len() > 0
        && all_digits(unsigned_part(r.drop_first())))
}

/// Digits with an optional fraction, at least one digit in all, then an
/// optional exponent.
pub open spec fn number_ok(b: Seq<u8>) -> bool {
    let d1 = digit_len(b);
    let r1 = b.skip(d1 as int);
    if r1.len() > 0 && r1[0] == 46 {
        let d2 = digit_len(r1.drop_first());
        d1 + d2 > 0 && exponent_ok(r1.drop_first().skip(d2 as int))
    } else {
        d1 > 0 && exponent_ok(r1)
    }
}

/// The text of a floating-point number as Rust's `f32` parser takes it: an
/// optional sign, then `inf`, `infinity` or `nan` in any case, or a decimal
/// number with an optional exponent.
pub open spec fn float_literal(t: Seq<u8>) -> bool {
    let b = unsigned_part(t);
    eq_ignore_case(b, word_inf()) || eq_ignore_case(b, word_infinity()) || eq_ignore_case(
        b,
        word_nan(),
    ) || number_ok(b)
}

/// Number of bytes of `s` before its first `/`.
pub open spec fn field_len(s: Seq<u8>) -> nat
    decreases s.len(),
{
    if s.len() > 0 && s[0] != 47 {
        1 + field_len(s.drop_first())
    } else {
        0
    }
}

pub open spec fn decimal_value(d: Seq<u8>) -> nat
    decreases d.len(),
{
    if d.len() == 0 {
        0
    } else {
        decimal_value(d.drop_last()) * 10 + (d.last() - 48) as nat
    }
}

/// A 16-bit unsigned integer as Rust's parser reads it: an optional `+`,
/// then one or more digits, with a value of at most 65535.
pub open spec fn u16_value(f: Seq<u8>) -> Option<nat> {
    let d = if f.len() > 0 && f[0] == 43 {
        f.drop_first()
    } else {
        f
    };
    if d.len() > 0 && all_digits(d) && decimal_value(d) <= 65535 {
        Some(decimal_value(d))
    } else {
        None
    }
}

/// The zero-based vertex that a face token `a[/b[/c]]` refers to: its first
/// `/`-separated field read as a one-based index; none when that field is
/// not a 16-bit number or is zero.
pub open spec fn face_ref(t: Seq<u8>) -> Option<u16> {
    let v = u16_value(t.take(field_len(t) as int));
    if v is Some && v->0 > 0 {
        Some((v->0 - 1) as u16)
    } else {
        None
    }
}

proof fn lemma_decimal_prefix(d: Seq<u8>, m: int)
    requires
        0 <= m <= d.len(),
        all_digits(d),
    ensures
        decimal_value(d.take(m)) <= decimal_value(d),
    decreases d.len(),
{
    if m < d.len() {
        let p = d.drop_last();
        assert(p.take(m) =~= d.take(m));
        lemma_decimal_prefix(p, m);
    } else {
        assert(d.take(m) =~= d);
    }
}

/// Length of the whitespace character at `i`, or zero.
fn ws_len_at(l: &[u8], i: usize) -> (r: usize)
    requires
        i < l@.len(),
    ensures
        r == ws_len(l@.skip(i as int)),
{
    let n = l.len() - i;
    let b = l[i];
    if b == 9 || b == 10 || b == 11 || b == 12 || b == 13 || b == 32 {
        1
    } else if n >= 2 && b == 0xC2 && (l[i + 1] == 0x85 || l[i + 1] == 0xA0) {
        2
    } else if n >= 3 && ((b == 0xE1 && l[i + 1] == 0x9A && l[i + 2] == 0x80) || (b == 0xE2
        && l[i + 1] == 0x80 && ((0x80 <= l[i + 2] && l[i + 2] <= 0x8A) || l[i + 2] == 0xA8
        || l[i + 2] == 0xA9 || l[i + 2] == 0xAF)) || (b == 0xE2 && l[i + 1] == 0x81 && l[i + 2]
        == 0x9F) || (b == 0xE3 && l[i + 1] == 0x80 && l[i + 2] == 0x80)) {
        3
    } else {
        0
    }
}

/// Splits a line into its whitespace-separated words.
pub fn split_tokens(l: &[u8]) -> (r: Vec<Vec<u8>>)
    ensures
        views(r@) == tokens(l@),
{
    let mut toks: Vec<Vec<u8>> = Vec::new();
    let mut cur: Vec<u8> = Vec::new();
    let mut i: usize = 0;
    assert(l@.skip(0) =~= l@);
    assert(views(toks@) =~= seq![]);
    while i < l.len()
        invariant
            0 <= i <= l@.len(),
            views(toks@) + tokens_from(l@.skip(i as int), cur@) == tokens(l@),
        decreases l.len() - i,
    {
        let k = ws_len_at(l, i);
        if k > 0 {
            assert(l@.skip(i as int).skip(k as int) =~= l@.skip(i + k));
            if cur.len() > 0 {
                let ghost c = cur@;
                let ghost before = views(toks@);
                toks.push(cur);
                cur = Vec::new();
                assert(views(toks@) =~= before.push(c));
                assert(before + (seq![c] + tokens_from(l@.skip(i + k), seq![])) =~= before.push(c)
                    + tokens_from(l@.skip(i + k), seq![]));
            } else {
                assert(Seq::<Seq<u8>>::empty() + tokens_from(l@.skip(i + k), seq![])
                    =~= tokens_from(l@.skip(i + k), seq![]));
            }
            assert(cur@ =~= seq![]);
            i += k;
        } else {
            assert(l@.skip(i as int).drop_first() =~= l@.skip(i + 1));
            cur.push(l[i]);
            i += 1;
        }
    }
    assert(l@.skip(i as int) =~= seq![]);
    if cur.len() > 0 {
        let ghost c = cur@;
        let ghost before = views(toks@);
        toks.push(cur);
        assert(views(toks@) =~= before.push(c));
        assert(before + seq![c] =~= before.push(c));
    } else {
        assert(views(toks@) + seq![] =~= views(toks@));
    }
    toks
}

/// End of the run of digits that starts at `start`.
fn digits_end(t: &[u8], start: usize) -> (r: usize)
    requires
        start <= t@.len(),
    ensures
        r == start + digit_len(t@.skip(start as int)),
        r <= t@.len(),
{
    let mut j = start;
    while j < t.len() && 48 <= t[j] && t[j] <= 57
        invariant
            start <= j <= t@.len(),
            digit_len(t@.skip(start as int)) == (j - start) + digit_len(t@.skip(j as int)),
        decreases t.len() - j,
    {
        assert(t@.skip(j as int).drop_first() =~= t@.skip(j + 1));
        j += 1;
    }
    j
}

/// Whether every byte of `t` from `start` on is a digit.
fn all_digits_from(t: &[u8], start: usize) -> (r: bool)
    requires
        start <= t@.len(),
    ensures
        r == all_digits(t@.skip(start as int)),
{
    let mut j = start;
    while j < t.len()
        invariant
            start <= j <= t@.len(),
            forall|i: int| start <= i < j ==> is_digit(#[trigger] t@[i]),
        decreases t.len() - j,
    {
        if !(48 <= t[j] && t[j] <= 57) {
            assert(!is_digit(t@.skip(start as int)[j - start]));
            return false;
        }
        j += 1;
    }
    assert forall|i: int| 0 <= i < t@.skip(start as int).len() implies is_digit(
        #[trigger] t@.skip(start as int)[i],
    ) by {
        assert(is_digit(t@[start + i]));
    }
    true
}

fn lower_byte(b: u8) -> (r: u8)
    ensures
        r == lower(b),
{
    if 65 <= b && b <= 90 {
        b + 32
    } else {
        b
    }
}

/// Whether the bytes of `t` from `start` on equal the lower-case word `w`
/// when ASCII case is ignored.
fn eq_ignore_case_from(t: &[u8], start: usize, w: &Vec<u8>) -> (r: bool)
    requires
        start <= t@.len(),
    ensures
        r == eq_ignore_case(t@.skip(start as int), w@),
{
    if t.len() - start != w.len() {
        return false;
    }
    let n = t.len();
    let mut k: usize = 0;
    while k < w.len()
        invariant
            n == t@.len(),
            start <= t@.len(),
            t@.len() - start == w@.len(),
            0 <= k <= w@.len(),
            forall|i: int| 0 <= i < k ==> lower(#[trigger] t@[start + i]) == w@[i],
        decreases w.len() - k,
    {
        if lower_byte(t[start + k]) != w[k] {
            assert(lower(t@.skip(start as int)[k as int]) != w@[k as int]);
            return false;
        }
        k += 1;
    }
    assert forall|i: int| 0 <= i < t@.skip(start as int).len() implies lower(
        #[trigger] t@.skip(start as int)[i],
    ) == w@[i] by {
        assert(lower(t@[start + i]) == w@[i]);
    }
    true
}

/// Whether the bytes of `t` from `p` on form a valid exponent tail.
fn exponent_ok_from(t: &[u8], p: usize) -> (r: bool)
    requires
        p <= t@.len(),
    ensures
        r == exponent_ok(t@.skip(p as int)),
{
    if p == t.len() {
        return true;
    }
    if t[p] != 101 && t[p] != 69 {
        return false;
    }
    let mut q = p + 1;
    assert(t@.skip(p as int).drop_first() =~= t@.skip(q as int));
    if q < t.len() && (t[q] == 43 || t[q] == 45) {
        assert(t@.skip(q as int).drop_first() =~= t@.skip(q + 1));
        q += 1;
    }
    if q == t.len() {
        return false;
    }
    all_digits_from(t, q)
}

/// Whether the bytes of `t` from `s` on form a decimal number.
fn number_ok_from(t: &[u8], s: usize) -> (r: bool)
    requires
        s <= t@.len(),
    ensures
        r == number_ok(t@.skip(s as int)),
{
    let ghost b = t@.skip(s as int);
    let j1 = digits_end(t, s);
    assert(b.skip(j1 - s) =~= t@.skip(j1 as int));
    if j1 < t.len() && t[j1] == 46 {
        assert(t@.skip(j1 as int).drop_first() =~= t@.skip(j1 + 1));
        let j2 = digits_end(t, j1 + 1);
        assert(t@.skip(j1 + 1).skip(j2 - j1 - 1) =~= t@.skip(j2 as int));
        (j1 - s) + (j2 - j1 - 1) > 0 && exponent_ok_from(t, j2)
    } else {
        j1 > s && exponent_ok_from(t, j1)
    }
}

/// Whether a token is the text of a floating-point number.
pub fn is_float_literal(t: &[u8]) -> (r: bool)
    ensures
        r == float_literal(t@),
{
    let mut s: usize = 0;
    if t.len() > 0 && (t[0] == 43 || t[0] == 45) {
        s = 1;
    }
    assert(unsigned_part(t@) =~= t@.skip(s as int));
    let inf: Vec<u8> = vec![105u8, 110u8, 102u8];
    let infinity: Vec<u8> = vec![105u8, 110u8, 102u8, 105u8, 110u8, 105u8, 116u8, 121u8];
    let nan: Vec<u8> = vec![110u8, 97u8, 110u8];
    assert(inf@ =~= word_inf());
    assert(infinity@ =~= word_infinity());
    assert(nan@ =~= word_nan());
    eq_ignore_case_from(t, s, &inf) || eq_ignore_case_from(t, s, &infinity)
        || eq_ignore_case_from(t, s, &nan) || number_ok_from(t, s)
}

/// Reads the vertex reference of a face token: the zero-based index that
/// its first `/`-separated field names.
pub fn parse_face_ref(t: &[u8]) -> (r: Option<u16>)
    ensures
        r == face_ref(t@),
{
    let mut e: usize = 0;
    assert(t@.skip(0) =~= t@);
    while e < t.len() && t[e] != 47
        invariant
            e <= t@.len(),
            field_len(t@) == e + field_len(t@.skip(e as int)),
        decreases t.len() - e,
    {
        assert(t@.skip(e as int).drop_first() =~= t@.skip(e + 1));
        e += 1;
    }
    assert(field_len(t@.skip(e as int)) == 0);
    let ghost f = t@.take(e as int);
    assert(f == t@.take(field_len(t@) as int));
    let mut s: usize = 0;
    if e > 0 && t[0] == 43 {
        s = 1;
    }
    let ghost d = t@.subrange(s as int, e as int);
    assert(d =~= (if f.len() > 0 && f[0] == 43 {
        f.drop_first()
    } else {
        f
    }));
    if s == e {
        assert(u16_value(f) is None);
        return None;
    }
    let mut acc: u32 = 0;
    let mut k = s;
    while k < e
        invariant
            s <= k <= e <= t@.len(),
            d == t@.subrange(s as int, e as int),
            f == t@.take(field_len(t@) as int),
            d == (if f.len() > 0 && f[0] == 43 {
                f.drop_first()
            } else {
                f
            }),
            acc == decimal_value(t@.subrange(s as int, k as int)),
            acc <= 65535,
            all_digits(t@.subrange(s as int, k as int)),
        decreases e - k,
    {
        if !(48 <= t[k] && t[k] <= 57) {
            assert(!is_digit(d[k - s]));
            assert(u16_value(f) is None);
            return None;
        }
        let ghost p = t@.subrange(s as int, k + 1);
        assert(p.drop_last() =~= t@.subrange(s as int, k as int));
        assert(all_digits(p));
        acc = acc * 10 + (t[k] - 48) as u32;
        if acc > 65535 {
            proof {
                if all_digits(d) {
                    assert(d.take(k + 1 - s) =~= p);
                    lemma_decimal_prefix(d, k + 1 - s);
                }
                assert(u16_value(f) is None);
            }
            return None;
        }
        k += 1;
    }
    assert(d =~= t@.subrange(s as int, k as int));
    assert(u16_value(f) == Some(acc as nat));
    if acc == 0 {
        assert(face_ref(t@) is None);
        None
    } else {
        assert(face_ref(t@) == Some((acc - 1) as u16));
        Some((acc - 1) as u16)
    }
}

/// `l` without one trailing carriage return.
pub open spec fn strip_cr(l: Seq<u8>) -> Seq<u8> {
    if l.len() > 0 && l.last() == 13 {
        l.drop_last()
    } else {
        l
    }
}

/// The lines of `s`, where `cur` is a line already begun: split at each
/// line feed, a line that ends in a line feed without the carriage return
/// before it, and no empty line after a final line feed.
pub open spec fn lines_from(s: Seq<u8>, cur: Seq<u8>) -> Seq<Seq<u8>>
    decreases s.len(),
{
    if s.len() == 0 {
        if cur.len() == 0 {
            seq![]
        } else {
            seq![cur]
        }
    } else if s[0] == 10 {
        seq![strip_cr(cur)] + lines_from(s.drop_first(), seq![])
    } else {
        lines_from(s.drop_first(), cur.push(s[0]))
    }
}

/// The lines of a text, in order.
pub open spec fn text_lines(s: Seq<u8>) -> Seq<Seq<u8>> {
    lines_from(s, seq![])
}

/// Splits a text into its lines.
pub fn split_lines(text: &[u8]) -> (r: Vec<Vec<u8>>)
    ensures
        views(r@) == text_lines(text@),
{
    let mut out: Vec<Vec<u8>> = Vec::new();
    let mut cur: Vec<u8> = Vec::new();
    let mut i: usize = 0;
    assert(text@.skip(0) =~= text@);
    assert(views(out@) =~= seq![]);
    while i < text.len()
        invariant
            0 <= i <= text@.len(),
            views(out@) + lines_from(text@.skip(i as int), cur@) == text_lines(text@),
        decreases text.len() - i,
    {
        assert(text@.skip(i as int).drop_first() =~= text@.skip(i + 1));
        if text[i] == 10 {
            let ghost c = strip_cr(cur@);
            let ghost before = views(out@);
            if cur.len() > 0 && cur[cur.len() - 1] == 13 {
                cur.pop();
            }
            assert(cur@ =~= c);
            out.push(cur);
            cur = Vec::new();
            assert(views(out@) =~= before.push(c));
            assert(before + (seq![c] + lines_from(text@.skip(i + 1), seq![])) =~= before.push(c)
                + lines_from(text@.skip(i + 1), seq![]));
            assert(cur@ =~= seq![]);
        } else {
            cur.push(text[i]);
        }
        i += 1;
    }
    assert(text@.skip(i as int) =~= seq![]);
    if cur.len() > 0 {
        let ghost c = cur@;
        let ghost before = views(out@);
        out.push(cur);
        assert(views(out@) =~= before.push(c));
        assert(before + seq![c] =~= before.push(c));
    } else {
        assert(views(out@) + seq![] =~= views(out@));
    }
    out
}

} // verus!
