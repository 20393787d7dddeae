//! A JSON parser over bytes, written against a specification-level parser
//! that defines exactly which documents are accepted and what they mean.
//!
//! The grammar is standard JSON with one relaxation: a number token is read
//! as the longest run of number characters starting with a minus sign or a
//! digit, and its exact characters are kept.

use vstd::prelude::*;
use crate::json::JsonSpec;
use crate::json::JsonValue;
use crate::json::elems_view;
use crate::json::members_view;
use crate::json::is_ws;
use crate::json::is_num_byte;
use crate::json::num_text_wf;
use crate::json::json_wf;
use crate::json::lemma_elems_view_len;
use crate::json::lemma_elems_view_index;
use crate::json::lemma_members_view_len;
use crate::json::lemma_members_view_index;

verus! {

/// The first position at or after `i` that does not hold whitespace.
pub open spec fn spec_skip_ws(s: Seq<u8>, i: int) -> int
    decreases s.len() - i,
{
    if 0 <= i < s.len() && is_ws(s[i]) {
        spec_skip_ws(s, i + 1)
    } else {
        i
    }
}

/// Skipping whitespace stays within the input and stops on a
/// non-whitespace byte.
pub proof fn lemma_skip_ws(s: Seq<u8>, i: int)
    requires
        0 <= i <= s.len(),
    ensures
        i <= spec_skip_ws(s, i) <= s.len(),
        spec_skip_ws(s, i) < s.len() ==> !is_ws(s[spec_skip_ws(s, i)]),
    decreases s.len() - i,
{
    if i < s.len() && is_ws(s[i]) {
        lemma_skip_ws(s, i + 1);
    }
}

/// True of an ASCII hex digit in either case.
pub open spec fn is_hex(b: u8) -> bool {
    (0x30 <= b && b <= 0x39) || (0x41 <= b && b <= 0x46) || (0x61 <= b && b <= 0x66)
}

/// The value of a hex digit.
pub open spec fn hex_val(b: u8) -> u8
    recommends
        is_hex(b),
{
    if 0x30 <= b && b <= 0x39 {
        (b - 0x30) as u8
    } else if 0x41 <= b && b <= 0x46 {
        (b - 0x37) as u8
    } else {
        (b - 0x57) as u8
    }
}

/// Four hex digits starting at `i`, as a code unit.
pub open spec fn spec_hex4(s: Seq<u8>, i: int) -> Option<u32> {
    if i + 4 <= s.len() && is_hex(s[i]) && is_hex(s[i + 1]) && is_hex(s[i + 2]) && is_hex(
        s[i + 3],
    ) {
        Some(
            ((hex_val(s[i]) as int) * 0x1000 + (hex_val(s[i + 1]) as int) * 0x100 + (hex_val(
                s[i + 2],
            ) as int) * 0x10 + (hex_val(s[i + 3]) as int)) as u32,
        )
    } else {
        None
    }
}

/// The UTF-8 encoding of a Unicode scalar value.
pub open spec fn utf8_enc(cp: u32) -> Seq<u8>
    recommends
        cp <= 0x10FFFF,
{
    if cp < 0x80 {
        seq![cp as u8]
    } else if cp < 0x800 {
        seq![(0xC0 + cp / 0x40) as u8, (0x80 + cp % 0x40) as u8]
    } else if cp < 0x10000 {
        seq![
            (0xE0 + cp / 0x1000) as u8,
            (0x80 + (cp / 0x40) % 0x40) as u8,
            (0x80 + cp % 0x40) as u8,
        ]
    } else {
        seq![
            (0xF0 + cp / 0x40000) as u8,
            (0x80 + (cp / 0x1000) % 0x40) as u8,
            (0x80 + (cp / 0x40) % 0x40) as u8,
            (0x80 + cp % 0x40) as u8,
        ]
    }
}

/// One escape sequence, starting at the byte after the backslash.
/// Returns the bytes it stands for and the position after it.
/// A high surrogate must be followed by an escaped low surrogate;
/// a lone surrogate is rejected.
pub open spec fn spec_parse_escape(s: Seq<u8>, i: int) -> Option<(Seq<u8>, int)> {
    if !(0 <= i < s.len()) {
        None
    } else if s[i] == 0x22 {
        Some((seq![0x22u8], i + 1))
    } else if s[i] == 0x5c {
        Some((seq![0x5cu8], i + 1))
    } else if s[i] == 0x2f {
        Some((seq![0x2fu8], i + 1))
    } else if s[i] == 0x62 {
        Some((seq![0x08u8], i + 1))
    } else if s[i] == 0x66 {
        Some((seq![0x0cu8], i + 1))
    } else if s[i] == 0x6e {
        Some((seq![0x0au8], i + 1))
    } else if s[i] == 0x72 {
        Some((seq![0x0du8], i + 1))
    } else if s[i] == 0x74 {
        Some((seq![0x09u8], i + 1))
    } else if s[i] == 0x75 {
        match spec_hex4(s, i + 1) {
            None => None,
            Some(cp) => if 0xD800 <= cp && cp < 0xDC00 {
                if i + 7 <= s.len() && s[i + 5] == 0x5c && s[i + 6] == 0x75 {
                    match spec_hex4(s, i + 7) {
                        None => None,
                        Some(lo) => if 0xDC00 <= lo && lo < 0xE000 {
                            Some(
                                (
                                    utf8_enc(
                                        (0x10000 + (cp - 0xD800) * 0x400 + (lo
                                            - 0xDC00)) as u32,
                                    ),
                                    i + 11,
                                ),
                            )
                        } else {
                            None
                        },
                    }
                } else {
                    None
                }
            } else if 0xDC00 <= cp && cp < 0xE000 {
                None
            } else {
                Some((utf8_enc(cp), i + 5))
            },
        }
    } else {
        None
    }
}

/// String contents from position `i` (just after the opening quote) up to
/// and including the closing quote. Returns the unescaped bytes and the
/// position after the closing quote.
pub open spec fn spec_parse_strbody(s: Seq<u8>, i: int) -> Option<(Seq<u8>, int)>
    decreases s.len() - i,
{
    if !(0 <= i < s.len()) {
        None
    } else if s[i] == 0x22 {
        Some((Seq::empty(), i + 1))
    } else if s[i] == 0x5c {
        match spec_parse_escape(s, i + 1) {
            None => None,
            Some((e, j)) => if i < j <= s.len() {
                match spec_parse_strbody(s, j) {
                    None => None,
                    Some((rest, end)) => Some((e + rest, end)),
                }
            } else {
                None
            },
        }
    } else if s[i] >= 0x20 {
        match spec_parse_strbody(s, i + 1) {
            None => None,
            Some((rest, end)) => Some((seq![s[i]] + rest, end)),
        }
    } else {
        None
    }
}

/// The first position at or after `i` that does not hold a number
/// character.
pub open spec fn spec_munch_num(s: Seq<u8>, i: int) -> int
    decreases s.len() - i,
{
    if 0 <= i < s.len() && is_num_byte(s[i]) {
        spec_munch_num(s, i + 1)
    } else {
        i
    }
}

/// The number run stays within the input, holds number characters only,
/// and is maximal.
pub proof fn lemma_munch_num(s: Seq<u8>, i: int)
    requires
        0 <= i <= s.len(),
    ensures
        i <= spec_munch_num(s, i) <= s.len(),
        forall|k: int| i <= k < spec_munch_num(s, i) ==> is_num_byte(#[trigger] s[k]),
        spec_munch_num(s, i) < s.len() ==> !is_num_byte(s[spec_munch_num(s, i)]),
    decreases s.len() - i,
{
    if i < s.len() && is_num_byte(s[i]) {
        lemma_munch_num(s, i + 1);
    }
}

/// One JSON value starting exactly at `i`, returning it and the position
/// after it.
pub open spec fn spec_parse_value(s: Seq<u8>, i: int) -> Option<(JsonSpec, int)>
    decreases s.len() - i, 0int,
{
    if !(0 <= i < s.len()) {
        None
    } else if s[i] == 0x7b {  // '{'
        let j = spec_skip_ws(s, i + 1);
        if !(i < j <= s.len()) {
            None
        } else if j < s.len() && s[j] == 0x7d {
            Some((JsonSpec::Obj(Seq::empty()), j + 1))
        } else {
            match spec_parse_members(s, j) {
                None => None,
                Some((ps, end)) => Some((JsonSpec::Obj(ps), end)),
            }
        }
    } else if s[i] == 0x5b {  // '['
        let j = spec_skip_ws(s, i + 1);
        if !(i < j <= s.len()) {
            None
        } else if j < s.len() && s[j] == 0x5d {
            Some((JsonSpec::Arr(Seq::empty()), j + 1))
        } else {
            match spec_parse_elems(s, j) {
                None => None,
                Some((es, end)) => Some((JsonSpec::Arr(es), end)),
            }
        }
    } else if s[i] == 0x22 {  // '"'
        match spec_parse_strbody(s, i + 1) {
            None => None,
            Some((c, end)) => Some((JsonSpec::Str(c), end)),
        }
    } else if s[i] == 0x2d || (0x30 <= s[i] && s[i] <= 0x39) {
        let j = spec_munch_num(s, i);
        Some((JsonSpec::Num(s.subrange(i, j)), j))
    } else if s[i] == 0x74 {  // 't'
        if i + 4 <= s.len() && s[i + 1] == 0x72 && s[i + 2] == 0x75 && s[i + 3] == 0x65 {
            Some((JsonSpec::Bool(true), i + 4))
        } else {
            None
        }
    } else if s[i] == 0x66 {  // 'f'
        if i + 5 <= s.len() && s[i + 1] == 0x61 && s[i + 2] == 0x6c && s[i + 3] == 0x73 && s[i
            + 4] == 0x65 {
            Some((JsonSpec::Bool(false), i + 5))
        } else {
            None
        }
    } else if s[i] == 0x6e {  // 'n'
        if i + 4 <= s.len() && s[i + 1] == 0x75 && s[i + 2] == 0x6c && s[i + 3] == 0x6c {
            Some((JsonSpec::Null, i + 4))
        } else {
            None
        }
    } else {
        None
    }
}

/// A non-empty, comma-separated list of elements starting at `i`, up to
/// and including the closing bracket.
pub open spec fn spec_parse_elems(s: Seq<u8>, i: int) -> Option<(Seq<JsonSpec>, int)>
    decreases s.len() - i, 1int,
{
    if !(0 <= i <= s.len()) {
        None
    } else {
        match spec_parse_value(s, i) {
            None => None,
            Some((v, j)) => {
                if !(0 <= j <= s.len()) {
                    None
                } else {
                    let k = spec_skip_ws(s, j);
                    if k < s.len() && s[k] == 0x2c {  // ','
                        let m = spec_skip_ws(s, k + 1);
                        if i < m <= s.len() {
                            match spec_parse_elems(s, m) {
                                None => None,
                                Some((rest, end)) => Some((seq![v] + rest, end)),
                            }
                        } else {
                            None
                        }
                    } else if k < s.len() && s[k] == 0x5d {  // ']'
                        Some((seq![v], k + 1))
                    } else {
                        None
                    }
                }
            },
        }
    }
}

/// A non-empty, comma-separated list of members starting at `i`, up to
/// and including the closing brace.
pub open spec fn spec_parse_members(s: Seq<u8>, i: int) -> Option<
    (Seq<(Seq<u8>, JsonSpec)>, int),
>
    decreases s.len() - i, 1int,
{
    if !(0 <= i < s.len()) {
        None
    } else if s[i] != 0x22 {
        None
    } else {
        match spec_parse_strbody(s, i + 1) {
            None => None,
            Some((key, j)) => {
                if !(0 <= j <= s.len()) {
                    None
                } else {
                    let k = spec_skip_ws(s, j);
                    if k < s.len() && s[k] == 0x3a {  // ':'
                        let m = spec_skip_ws(s, k + 1);
                        if i < m <= s.len() {
                            match spec_parse_value(s, m) {
                                None => None,
                                Some((v, n)) => {
                                    if !(0 <= n <= s.len()) {
                                        None
                                    } else {
                                        let p = spec_skip_ws(s, n);
                                        if p < s.len() && s[p] == 0x2c {  // ','
                                            let q = spec_skip_ws(s, p + 1);
                                            if i < q <= s.len() {
                                                match spec_parse_members(s, q) {
                                                    None => None,
                                                    Some((rest, end)) => Some(
                                                        (seq![(key, v)] + rest, end),
                                                    ),
                                                }
                                            } else {
                                                None
                                            }
                                        } else if p < s.len() && s[p] == 0x7d {  // '}'
                                            Some((seq![(key, v)], p + 1))
                                        } else {
                                            None
                                        }
                                    }
                                },
                            }
                        } else {
                            None
                        }
                    } else {
                        None
                    }
                }
            },
        }
    }
}

/// Skips whitespace, as `spec_skip_ws` says.
#[verifier::loop_isolation(false)]
fn skip_ws(s: &[u8], i: usize) -> (j: usize)
    requires
        i <= s.len(),
    ensures
        j as int == spec_skip_ws(s@, i as int),
        i <= j <= s.len(),
        j < s.len() ==> !is_ws(s@[j as int]),
{
    let mut j: usize = i;
    while j < s.len() && (s[j] == 0x20 || s[j] == 0x09 || s[j] == 0x0a || s[j] == 0x0d)
        invariant
            i <= j <= s.len(),
            spec_skip_ws(s@, i as int) == spec_skip_ws(s@, j as int),
        decreases s.len() - j,
    {
        j += 1;
    }
    j
}

/// Reads four hex digits, as `spec_hex4` says.
fn parse_hex4(s: &[u8], i: usize) -> (r: Option<u32>)
    requires
        i <= s.len(),
    ensures
        r == spec_hex4(s@, i as int),
{
    if s.len() - i < 4 {
        return None;
    }
    let mut cp: u32 = 0;
    let mut k: usize = 0;
    let b0 = s[i];
    let b1 = s[i + 1];
    let b2 = s[i + 2];
    let b3 = s[i + 3];
    if !(hex_ok(b0) && hex_ok(b1) && hex_ok(b2) && hex_ok(b3)) {
        return None;
    }
    let v = (hex_val_byte(b0) as u32) * 0x1000 + (hex_val_byte(b1) as u32) * 0x100 + (
    hex_val_byte(b2) as u32) * 0x10 + (hex_val_byte(b3) as u32);
    Some(v)
}

/// Reports whether a byte is a hex digit.
fn hex_ok(b: u8) -> (r: bool)
    ensures
        r == is_hex(b),
{
    (0x30 <= b && b <= 0x39) || (0x41 <= b && b <= 0x46) || (0x61 <= b && b <= 0x66)
}

/// The value of a hex digit.
fn hex_val_byte(b: u8) -> (r: u8)
    requires
        is_hex(b),
    ensures
        r == hex_val(b),
        r < 16,
{
    if 0x30 <= b && b <= 0x39 {
        b - 0x30
    } else if 0x41 <= b && b <= 0x46 {
        b - 0x37
    } else {
        b - 0x57
    }
}

/// Appends the UTF-8 encoding of `cp` to `out`.
fn push_utf8(cp: u32, out: &mut Vec<u8>)
    requires
        cp <= 0x10FFFF,
    ensures
        final(out)@ == old(out)@ + utf8_enc(cp),
{
    if cp < 0x80 {
        out.push(cp as u8);
    } else if cp < 0x800 {
        out.push((0xC0 + cp / 0x40) as u8);
        out.push((0x80 + cp % 0x40) as u8);
    } else if cp < 0x10000 {
        out.push((0xE0 + cp / 0x1000) as u8);
        out.push((0x80 + (cp / 0x40) % 0x40) as u8);
        out.push((0x80 + cp % 0x40) as u8);
    } else {
        out.push((0xF0 + cp / 0x40000) as u8);
        out.push((0x80 + (cp / 0x1000) % 0x40) as u8);
        out.push((0x80 + (cp / 0x40) % 0x40) as u8);
        out.push((0x80 + cp % 0x40) as u8);
    }
    proof {
        assert(out@ =~= old(out)@ + utf8_enc(cp));
    }
}

/// Reads one escape sequence, as `spec_parse_escape` says, appending its
/// bytes to `acc`.
fn parse_escape(s: &[u8], i: usize, acc: &mut Vec<u8>) -> (r: Option<usize>)
    requires
        i <= s.len(),
    ensures
        match r {
            None => spec_parse_escape(s@, i as int) is None && final(acc)@ == old(acc)@,
            Some(j) => {
                &&& i < j <= s.len()
                &&& spec_parse_escape(s@, i as int) matches Some(pr) && pr.1 == j as int
                    && final(acc)@ == old(acc)@ + pr.0
            },
        },
{
    if i >= s.len() {
        return None;
    }
    let b = s[i];
    if b == 0x22 || b == 0x5c || b == 0x2f {
        acc.push(b);
        proof {
            assert(acc@ =~= old(acc)@ + seq![b]);
        }
        Some(i + 1)
    } else if b == 0x62 {
        acc.push(0x08);
        proof {
            assert(acc@ =~= old(acc)@ + seq![0x08u8]);
        }
        Some(i + 1)
    } else if b == 0x66 {
        acc.push(0x0c);
        proof {
            assert(acc@ =~= old(acc)@ + seq![0x0cu8]);
        }
        Some(i + 1)
    } else if b == 0x6e {
        acc.push(0x0a);
        proof {
            assert(acc@ =~= old(acc)@ + seq![0x0au8]);
        }
        Some(i + 1)
    } else if b == 0x72 {
        acc.push(0x0d);
        proof {
            assert(acc@ =~= old(acc)@ + seq![0x0du8]);
        }
        Some(i + 1)
    } else if b == 0x74 {
        acc.push(0x09);
        proof {
            assert(acc@ =~= old(acc)@ + seq![0x09u8]);
        }
        Some(i + 1)
    } else if b == 0x75 {
        match parse_hex4(s, i + 1) {
            None => None,
            Some(cp) => {
                if 0xD800 <= cp && cp < 0xDC00 {
                    if s.len() - i >= 7 && s[i + 5] == 0x5c && s[i + 6] == 0x75 {
                        match parse_hex4(s, i + 7) {
                            None => None,
                            Some(lo) => {
                                if 0xDC00 <= lo && lo < 0xE000 {
                                    let full: u32 = 0x10000 + (cp - 0xD800) * 0x400 + (lo
                                        - 0xDC00);
                                    push_utf8(full, acc);
                                    Some(i + 11)
                                } else {
                                    None
                                }
                            },
                        }
                    } else {
                        None
                    }
                } else if 0xDC00 <= cp && cp < 0xE000 {
                    None
                } else {
                    push_utf8(cp, acc);
                    Some(i + 5)
                }
            },
        }
    } else {
        None
    }
}

/// Reads string contents, as `spec_parse_strbody` says.
#[verifier::loop_isolation(false)]
fn parse_strbody(s: &[u8], i: usize) -> (r: Option<(Vec<u8>, usize)>)
    requires
        i <= s.len(),
    ensures
        match r {
            None => spec_parse_strbody(s@, i as int) is None,
            Some(pr) => spec_parse_strbody(s@, i as int) == Some((pr.0@, pr.1 as int)) && i
                < pr.1 <= s.len(),
        },
{
    let mut acc: Vec<u8> = Vec::new();
    let mut cur: usize = i;
    loop
        invariant
            i <= cur <= s.len(),
            spec_parse_strbody(s@, i as int) is None <==> spec_parse_strbody(
                s@,
                cur as int,
            ) is None,
            spec_parse_strbody(s@, cur as int) matches Some(pr) ==> spec_parse_strbody(
                s@,
                i as int,
            ) == Some((acc@ + pr.0, pr.1)),
        decreases s.len() - cur,
    {
        if cur >= s.len() {
            return None;
        }
        let b = s[cur];
        if b == 0x22 {
            proof {
                assert(acc@ + Seq::<u8>::empty() =~= acc@);
            }
            return Some((acc, cur + 1));
        } else if b == 0x5c {
            let ghost acc_before = acc@;
            match parse_escape(s, cur + 1, &mut acc) {
                None => {
                    return None;
                },
                Some(j) => {
                    proof {
                        let e = spec_parse_escape(s@, cur as int + 1)->Some_0.0;
                        assert(acc@ == acc_before + e);
                        if let Some(pr) = spec_parse_strbody(s@, j as int) {
                            assert(spec_parse_strbody(s@, cur as int) == Some(
                                (e + pr.0, pr.1),
                            ));
                            assert(acc_before + (e + pr.0) =~= (acc_before + e) + pr.0);
                        }
                    }
                    cur = j;
                },
            }
        } else if b >= 0x20 {
            let ghost acc_before = acc@;
            acc.push(b);
            proof {
                assert(acc@ == acc_before.push(b));
                if let Some(pr) = spec_parse_strbody(s@, cur as int + 1) {
                    assert(spec_parse_strbody(s@, cur as int) == Some(
                        (seq![b] + pr.0, pr.1),
                    ));
                    assert(acc_before + (seq![b] + pr.0) =~= acc_before.push(b) + pr.0);
                }
            }
            cur += 1;
        } else {
            return None;
        }
    }
}

/// Reads the longest run of number characters, as `spec_munch_num` says.
#[verifier::loop_isolation(false)]
fn munch_num(s: &[u8], i: usize) -> (j: usize)
    requires
        i <= s.len(),
    ensures
        j as int == spec_munch_num(s@, i as int),
        i <= j <= s.len(),
{
    let mut j: usize = i;
    while j < s.len() && ((0x30 <= s[j] && s[j] <= 0x39) || s[j] == 0x2b || s[j] == 0x2d
        || s[j] == 0x2e || s[j] == 0x45 || s[j] == 0x65)
        invariant
            i <= j <= s.len(),
            spec_munch_num(s@, i as int) == spec_munch_num(s@, j as int),
        decreases s.len() - j,
    {
        j += 1;
    }
    j
}

/// Reads one JSON value, as `spec_parse_value` says. Everything returned
/// is well formed.
#[verifier::loop_isolation(false)]
#[verifier::rlimit(60)]
fn parse_value(s: &[u8], i: usize) -> (r: Option<(JsonValue, usize)>)
    requires
        i <= s.len(),
    ensures
        match r {
            None => spec_parse_value(s@, i as int) is None,
            Some(pr) => spec_parse_value(s@, i as int) == Some((pr.0@, pr.1 as int)) && i
                < pr.1 <= s.len() && json_wf(pr.0@),
        },
    decreases s.len() - i, 0int,
{
    if i >= s.len() {
        return None;
    }
    let b = s[i];
    if b == 0x7b {  // '{'
        let j = skip_ws(s, i + 1);
        proof {
            lemma_skip_ws(s@, i as int + 1);
        }
        if j < s.len() && s[j] == 0x7d {
            let v = JsonValue::Obj(Vec::new());
            proof {
                assert(members_view(Seq::<(Vec<u8>, JsonValue)>::empty())
                    =~= Seq::<(Seq<u8>, JsonSpec)>::empty());
                assert(v@ == JsonSpec::Obj(Seq::<(Seq<u8>, JsonSpec)>::empty()));
            }
            return Some((v, j + 1));
        }
        match parse_members(s, j) {
            None => None,
            Some(pr) => {
                let (ps, end) = pr;
                proof {
                    lemma_members_view_len(ps@);
                    assert forall|k: int| 0 <= k < members_view(ps@).len() implies json_wf(
                        #[trigger] members_view(ps@)[k].1,
                    ) by {
                        lemma_members_view_index(ps@, k);
                    }
                }
                let v = JsonValue::Obj(ps);
                Some((v, end))
            },
        }
    } else if b == 0x5b {  // '['
        let j = skip_ws(s, i + 1);
        proof {
            lemma_skip_ws(s@, i as int + 1);
        }
        if j < s.len() && s[j] == 0x5d {
            let v = JsonValue::Arr(Vec::new());
            proof {
                assert(elems_view(Seq::<JsonValue>::empty()) =~= Seq::<JsonSpec>::empty());
                assert(v@ == JsonSpec::Arr(Seq::<JsonSpec>::empty()));
            }
            return Some((v, j + 1));
        }
        match parse_elems(s, j) {
            None => None,
            Some(pr) => {
                let (es, end) = pr;
                proof {
                    lemma_elems_view_len(es@);
                    assert forall|k: int| 0 <= k < elems_view(es@).len() implies json_wf(
                        #[trigger] elems_view(es@)[k],
                    ) by {
                        lemma_elems_view_index(es@, k);
                    }
                }
                let v = JsonValue::Arr(es);
                Some((v, end))
            },
        }
    } else if b == 0x22 {  // '"'
        match parse_strbody(s, i + 1) {
            None => None,
            Some(pr) => {
                let (c, end) = pr;
                Some((JsonValue::Str(c), end))
            },
        }
    } else if b == 0x2d || (0x30 <= b && b <= 0x39) {
        let j = munch_num(s, i);
        proof {
            lemma_munch_num(s@, i as int);
            assert(spec_munch_num(s@, i as int) == spec_munch_num(s@, i as int + 1));
            assert(j > i);
        }
        let lex = vstd::slice::slice_to_vec(vstd::slice::slice_subrange(s, i, j));
        proof {
            assert(num_text_wf(lex@));
        }
        Some((JsonValue::Num(lex), j))
    } else if b == 0x74 {  // 't'
        if s.len() - i >= 4 && s[i + 1] == 0x72 && s[i + 2] == 0x75 && s[i + 3] == 0x65 {
            Some((JsonValue::Bool(true), i + 4))
        } else {
            None
        }
    } else if b == 0x66 {  // 'f'
        if s.len() - i >= 5 && s[i + 1] == 0x61 && s[i + 2] == 0x6c && s[i + 3] == 0x73 && s[i
            + 4] == 0x65 {
            Some((JsonValue::Bool(false), i + 5))
        } else {
            None
        }
    } else if b == 0x6e {  // 'n'
        if s.len() - i >= 4 && s[i + 1] == 0x75 && s[i + 2] == 0x6c && s[i + 3] == 0x6c {
            Some((JsonValue::Null, i + 4))
        } else {
            None
        }
    } else {
        None
    }
}

/// Reads a non-empty element list, as `spec_parse_elems` says.
#[verifier::loop_isolation(false)]
#[verifier::rlimit(60)]
fn parse_elems(s: &[u8], i: usize) -> (r: Option<(Vec<JsonValue>, usize)>)
    requires
        i <= s.len(),
    ensures
        match r {
            None => spec_parse_elems(s@, i as int) is None,
            Some(pr) => {
                &&& spec_parse_elems(s@, i as int) matches Some(sp)
                &&& sp == (elems_view(pr.0@), pr.1 as int)
                &&& i < pr.1 <= s.len()
                &&& forall|k: int| 0 <= k < pr.0@.len() ==> json_wf(#[trigger] pr.0@[k]@)
            },
        },
    decreases s.len() - i, 1int,
{
    let mut acc: Vec<JsonValue> = Vec::new();
    let mut cur: usize = i;
    loop
        invariant
            i <= cur <= s.len(),
            forall|k: int| 0 <= k < acc@.len() ==> json_wf(#[trigger] acc@[k]@),
            spec_parse_elems(s@, i as int) is None <==> spec_parse_elems(
                s@,
                cur as int,
            ) is None,
            spec_parse_elems(s@, cur as int) matches Some(sp) ==> spec_parse_elems(
                s@,
                i as int,
            ) == Some((elems_view(acc@) + sp.0, sp.1)),
        decreases s.len() - cur,
    {
        let pv = parse_value(s, cur);
        if pv.is_none() {
            return None;
        }
        let (v, j) = pv.unwrap();
        let k = skip_ws(s, j);
        proof {
            lemma_skip_ws(s@, j as int);
        }
        if k < s.len() && s[k] == 0x2c {
            let m = skip_ws(s, k + 1);
            proof {
                lemma_skip_ws(s@, k as int + 1);
            }
            let ghost acc_before = acc@;
            acc.push(v);
            proof {
                assert(acc@.drop_last() =~= acc_before);
                lemma_elems_view_len(acc_before);
                assert(elems_view(acc@) == elems_view(acc_before).push(v@));
                if let Some(sp) = spec_parse_elems(s@, m as int) {
                    assert(spec_parse_elems(s@, cur as int) == Some(
                        (seq![v@] + sp.0, sp.1),
                    ));
                    assert(elems_view(acc_before) + (seq![v@] + sp.0) =~= elems_view(
                        acc_before,
                    ).push(v@) + sp.0);
                }
            }
            cur = m;
        } else if k < s.len() && s[k] == 0x5d {
            let ghost acc_before = acc@;
            acc.push(v);
            proof {
                assert(acc@.drop_last() =~= acc_before);
                assert(elems_view(acc@) == elems_view(acc_before).push(v@));
                assert(spec_parse_elems(s@, cur as int) == Some((seq![v@], k as int + 1)));
                assert(elems_view(acc_before) + seq![v@] =~= elems_view(acc_before).push(
                    v@,
                ));
            }
            return Some((acc, k + 1));
        } else {
            return None;
        }
    }
}

/// Reads a non-empty member list, as `spec_parse_members` says.
#[verifier::loop_isolation(false)]
#[verifier::rlimit(60)]
fn parse_members(s: &[u8], i: usize) -> (r: Option<
    (Vec<(Vec<u8>, JsonValue)>, usize),
>)
    requires
        i <= s.len(),
    ensures
        match r {
            None => spec_parse_members(s@, i as int) is None,
            Some(pr) => {
                &&& spec_parse_members(s@, i as int) matches Some(sp)
                &&& sp == (members_view(pr.0@), pr.1 as int)
                &&& i < pr.1 <= s.len()
                &&& forall|k: int| 0 <= k < pr.0@.len() ==> json_wf(#[trigger] pr.0@[k].1@)
            },
        },
    decreases s.len() - i, 1int,
{
    let mut acc: Vec<(Vec<u8>, JsonValue)> = Vec::new();
    let mut cur: usize = i;
    loop
        invariant
            i <= cur <= s.len(),
            forall|k: int| 0 <= k < acc@.len() ==> json_wf(#[trigger] acc@[k].1@),
            spec_parse_members(s@, i as int) is None <==> spec_parse_members(
                s@,
                cur as int,
            ) is None,
            spec_parse_members(s@, cur as int) matches Some(sp) ==> spec_parse_members(
                s@,
                i as int,
            ) == Some((members_view(acc@) + sp.0, sp.1)),
        decreases s.len() - cur,
    {
        if cur >= s.len() || s[cur] != 0x22 {
            return None;
        }
        let pk = parse_strbody(s, cur + 1);
        if pk.is_none() {
            return None;
        }
        let (key, j) = pk.unwrap();
        let k = skip_ws(s, j);
        proof {
            lemma_skip_ws(s@, j as int);
        }
        if !(k < s.len() && s[k] == 0x3a) {
            return None;
        }
        let m = skip_ws(s, k + 1);
        proof {
            lemma_skip_ws(s@, k as int + 1);
        }
        let pv = parse_value(s, m);
        if pv.is_none() {
            return None;
        }
        let (v, n) = pv.unwrap();
        let p = skip_ws(s, n);
        proof {
            lemma_skip_ws(s@, n as int);
        }
        if p < s.len() && s[p] == 0x2c {
            let q = skip_ws(s, p + 1);
            proof {
                lemma_skip_ws(s@, p as int + 1);
            }
            let ghost acc_before = acc@;
            acc.push((key, v));
            proof {
                assert(acc@.drop_last() =~= acc_before);
                lemma_members_view_len(acc_before);
                assert(members_view(acc@) == members_view(acc_before).push((key@, v@)));
                if let Some(sp) = spec_parse_members(s@, q as int) {
                    assert(spec_parse_members(s@, cur as int) == Some(
                        (seq![(key@, v@)] + sp.0, sp.1),
                    ));
                    assert(members_view(acc_before) + (seq![(key@, v@)] + sp.0)
                        =~= members_view(acc_before).push((key@, v@)) + sp.0);
                }
            }
            cur = q;
        } else if p < s.len() && s[p] == 0x7d {
            let ghost acc_before = acc@;
            acc.push((key, v));
            proof {
                assert(acc@.drop_last() =~= acc_before);
                assert(members_view(acc@) == members_view(acc_before).push((key@, v@)));
                assert(spec_parse_members(s@, cur as int) == Some(
                    (seq![(key@, v@)], p as int + 1),
                ));
                assert(members_view(acc_before) + seq![(key@, v@)] =~= members_view(
                    acc_before,
                ).push((key@, v@)));
            }
            return Some((acc, p + 1));
        } else {
            return None;
        }
    }
}

/// A whole document: one value surrounded by whitespace, with nothing
/// after it.
pub open spec fn spec_parse_json(s: Seq<u8>) -> Option<JsonSpec> {
    let i = spec_skip_ws(s, 0);
    if !(0 <= i <= s.len()) {
        None
    } else {
        match spec_parse_value(s, i) {
            None => None,
            Some((v, j)) => {
                if 0 <= j <= s.len() && spec_skip_ws(s, j) == s.len() {
                    Some(v)
                } else {
                    None
                }
            },
        }
    }
}

/// Parses a whole JSON document, as `spec_parse_json` says. Everything
/// returned is well formed.
pub fn parse_json(s: &[u8]) -> (r: Option<JsonValue>)
    ensures
        match r {
            None => spec_parse_json(s@) is None,
            Some(v) => spec_parse_json(s@) == Some(v@) && json_wf(v@),
        },
{
    let i = skip_ws(s, 0);
    proof {
        lemma_skip_ws(s@, 0);
    }
    match parse_value(s, i) {
        None => None,
        Some(pr) => {
            let (v, j) = pr;
            let k = skip_ws(s, j);
            if k == s.len() {
                Some(v)
            } else {
                None
            }
        },
    }
}

} // verus!
