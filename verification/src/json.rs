//! A small JSON document model: the tree of values, a canonical encoding of
//! that tree into bytes, and the well-formedness predicate the parser
//! guarantees.
//!
//! Text is carried as raw UTF-8 bytes. Numbers keep the exact characters that
//! appeared in the input, so no precision is lost and no floating point is
//! involved.

use vstd::prelude::*;

verus! {

/// Mathematical model of a JSON value.
pub enum JsonSpec {
    Null,
    Bool(bool),
    /// The literal characters of a number token.
    Num(Seq<u8>),
    /// String contents as unescaped UTF-8 bytes.
    Str(Seq<u8>),
    Arr(Seq<JsonSpec>),
    Obj(Seq<(Seq<u8>, JsonSpec)>),
}

/// A JSON value as executable data.
#[derive(Debug)]
pub enum JsonValue {
    Null,
    Bool(bool),
    /// The literal characters of a number token.
    Num(Vec<u8>),
    /// String contents as unescaped UTF-8 bytes.
    Str(Vec<u8>),
    Arr(Vec<JsonValue>),
    Obj(Vec<(Vec<u8>, JsonValue)>),
}

/// Model of a list of array elements.
pub open spec fn elems_view(es: Seq<JsonValue>) -> Seq<JsonSpec>
    decreases es,
{
    if es.len() == 0 {
        Seq::empty()
    } else {
        elems_view(es.drop_last()).push(es.last()@)
    }
}

/// Model of a list of object members.
pub open spec fn members_view(ps: Seq<(Vec<u8>, JsonValue)>) -> Seq<(Seq<u8>, JsonSpec)>
    decreases ps,
{
    if ps.len() == 0 {
        Seq::empty()
    } else {
        members_view(ps.drop_last()).push((ps.last().0@, ps.last().1@))
    }
}

impl View for JsonValue {
    type V = JsonSpec;

    open spec fn view(&self) -> JsonSpec
        decreases self,
    {
        match self {
            JsonValue::Null => JsonSpec::Null,
            JsonValue::Bool(b) => JsonSpec::Bool(*b),
            JsonValue::Num(t) => JsonSpec::Num(t@),
            JsonValue::Str(s) => JsonSpec::Str(s@),
            JsonValue::Arr(es) => JsonSpec::Arr(elems_view(es@)),
            JsonValue::Obj(ps) => JsonSpec::Obj(members_view(ps@)),
        }
    }
}

/// True of the bytes that JSON treats as insignificant whitespace.
pub open spec fn is_ws(b: u8) -> bool {
    b == 0x20 || b == 0x09 || b == 0x0a || b == 0x0d
}

/// True of the characters that may appear in a number token:
/// digits, signs, the decimal point and the exponent markers.
pub open spec fn is_num_byte(b: u8) -> bool {
    (0x30 <= b && b <= 0x39) || b == 0x2b || b == 0x2d || b == 0x2e || b == 0x45 || b == 0x65
}

/// A stored number token: non-empty, starts with a minus sign or a digit,
/// and holds number characters only.
pub open spec fn num_text_wf(t: Seq<u8>) -> bool {
    &&& t.len() > 0
    &&& (t[0] == 0x2d || (0x30 <= t[0] && t[0] <= 0x39))
    &&& forall|i: int| 0 <= i < t.len() ==> is_num_byte(#[trigger] t[i])
}

/// Every number token in the tree is well formed. The parser establishes
/// this for everything it returns.
pub open spec fn json_wf(v: JsonSpec) -> bool
    decreases v,
{
    match v {
        JsonSpec::Null => true,
        JsonSpec::Bool(_) => true,
        JsonSpec::Num(t) => num_text_wf(t),
        JsonSpec::Str(_) => true,
        JsonSpec::Arr(es) => forall|i: int| 0 <= i < es.len() ==> json_wf(#[trigger] es[i]),
        JsonSpec::Obj(ps) => forall|i: int| 0 <= i < ps.len() ==> json_wf(#[trigger] ps[i].1),
    }
}

/// The lower-case hex digit character for a value below 16.
pub open spec fn hex_digit(n: u8) -> u8
    recommends
        n < 16,
{
    if n < 10 {
        (0x30 + n) as u8
    } else {
        (0x57 + n) as u8
    }
}

/// How one byte of string content is written: the two-character escapes for
/// quote, backslash, newline, carriage return and tab, a `\u00XX` escape for
/// the remaining control bytes, and the byte itself otherwise.
pub open spec fn esc_byte(b: u8) -> Seq<u8> {
    if b == 0x22 {
        seq![0x5cu8, 0x22u8]
    } else if b == 0x5c {
        seq![0x5cu8, 0x5cu8]
    } else if b == 0x0a {
        seq![0x5cu8, 0x6eu8]
    } else if b == 0x0d {
        seq![0x5cu8, 0x72u8]
    } else if b == 0x09 {
        seq![0x5cu8, 0x74u8]
    } else if b < 0x20 {
        seq![0x5cu8, 0x75u8, 0x30u8, 0x30u8, hex_digit(b / 16), hex_digit(b % 16)]
    } else {
        seq![b]
    }
}

/// String contents written with `esc_byte`, one byte at a time.
pub open spec fn esc_bytes(s: Seq<u8>) -> Seq<u8>
    decreases s.len(),
{
    if s.len() == 0 {
        Seq::empty()
    } else {
        esc_bytes(s.drop_last()) + esc_byte(s.last())
    }
}

/// The canonical encoding of a JSON value: no insignificant whitespace,
/// strings escaped as `esc_byte` says, members and elements in stored order.
pub open spec fn spec_encode(v: JsonSpec) -> Seq<u8>
    decreases v, 0int, 0int,
{
    match v {
        JsonSpec::Null => seq![0x6eu8, 0x75u8, 0x6cu8, 0x6cu8],
        JsonSpec::Bool(b) => if b {
            seq![0x74u8, 0x72u8, 0x75u8, 0x65u8]
        } else {
            seq![0x66u8, 0x61u8, 0x6cu8, 0x73u8, 0x65u8]
        },
        JsonSpec::Num(t) => t,
        JsonSpec::Str(c) => seq![0x22u8] + esc_bytes(c) + seq![0x22u8],
        JsonSpec::Arr(es) => seq![0x5bu8] + spec_encode_elems(es) + seq![0x5du8],
        JsonSpec::Obj(ps) => seq![0x7bu8] + spec_encode_members(ps) + seq![0x7du8],
    }
}

/// Array elements joined by commas.
pub open spec fn spec_encode_elems(es: Seq<JsonSpec>) -> Seq<u8>
    decreases es, 1int, es.len(),
{
    if es.len() == 0 {
        Seq::<u8>::empty()
    } else if es.len() == 1 {
        spec_encode(es[0])
    } else {
        spec_encode_elems(es.drop_last()) + seq![0x2cu8] + spec_encode(es.last())
    }
}

/// Object members joined by commas, each written as `"key":value`.
pub open spec fn spec_encode_members(ps: Seq<(Seq<u8>, JsonSpec)>) -> Seq<u8>
    decreases ps, 1int, ps.len(),
{
    if ps.len() == 0 {
        Seq::<u8>::empty()
    } else if ps.len() == 1 {
        spec_encode_member(ps[0])
    } else {
        spec_encode_members(ps.drop_last()) + seq![0x2cu8] + spec_encode_member(ps.last())
    }
}

/// One object member, `"key":value`.
pub open spec fn spec_encode_member(p: (Seq<u8>, JsonSpec)) -> Seq<u8>
    decreases p, 0int, 0int,
{
    seq![0x22u8] + esc_bytes(p.0) + seq![0x22u8, 0x3au8] + spec_encode(p.1)
}

/// The number of nodes in a JSON tree; the measure the encoder recurses on.
pub open spec fn jsize(v: JsonSpec) -> nat
    decreases v, 0int, 0int,
{
    match v {
        JsonSpec::Null => 1,
        JsonSpec::Bool(_) => 1,
        JsonSpec::Num(_) => 1,
        JsonSpec::Str(_) => 1,
        JsonSpec::Arr(es) => 1 + jsize_elems(es),
        JsonSpec::Obj(ps) => 1 + jsize_members(ps),
    }
}

/// Total size of a list of elements.
pub open spec fn jsize_elems(es: Seq<JsonSpec>) -> nat
    decreases es, 1int, es.len(),
{
    if es.len() == 0 {
        0
    } else {
        jsize_elems(es.drop_last()) + jsize(es.last())
    }
}

/// Total size of a list of members.
pub open spec fn jsize_members(ps: Seq<(Seq<u8>, JsonSpec)>) -> nat
    decreases ps, 1int, ps.len(),
{
    if ps.len() == 0 {
        0
    } else {
        jsize_members(ps.drop_last()) + jsize(ps.last().1)
    }
}

/// Each element's size is bounded by the size of the whole list.
pub proof fn lemma_jsize_elem(es: Seq<JsonSpec>, i: int)
    requires
        0 <= i < es.len(),
    ensures
        jsize(es[i]) <= jsize_elems(es),
    decreases es.len(),
{
    if i < es.len() - 1 {
        lemma_jsize_elem(es.drop_last(), i);
        assert(es.drop_last()[i] == es[i]);
    }
}

/// Each member value's size is bounded by the size of the whole list.
pub proof fn lemma_jsize_member(ps: Seq<(Seq<u8>, JsonSpec)>, i: int)
    requires
        0 <= i < ps.len(),
    ensures
        jsize(ps[i].1) <= jsize_members(ps),
    decreases ps.len(),
{
    if i < ps.len() - 1 {
        lemma_jsize_member(ps.drop_last(), i);
        assert(ps.drop_last()[i] == ps[i]);
    }
}

/// The model of a list keeps each element, in place.
pub proof fn lemma_elems_view_index(es: Seq<JsonValue>, i: int)
    requires
        0 <= i < es.len(),
    ensures
        elems_view(es).len() == es.len(),
        elems_view(es)[i] == es[i]@,
    decreases es.len(),
{
    lemma_elems_view_len(es);
    assert(elems_view(es) == elems_view(es.drop_last()).push(es.last()@));
    if i < es.len() - 1 {
        lemma_elems_view_index(es.drop_last(), i);
        assert(es.drop_last()[i] == es[i]);
    } else {
        assert(es.last() == es[i]);
    }
}

/// The model of a list of members keeps each member, in place.
pub proof fn lemma_members_view_index(ps: Seq<(Vec<u8>, JsonValue)>, i: int)
    requires
        0 <= i < ps.len(),
    ensures
        members_view(ps).len() == ps.len(),
        members_view(ps)[i] == (ps[i].0@, ps[i].1@),
    decreases ps.len(),
{
    lemma_members_view_len(ps);
    assert(members_view(ps) == members_view(ps.drop_last()).push(
        (ps.last().0@, ps.last().1@),
    ));
    if i < ps.len() - 1 {
        lemma_members_view_index(ps.drop_last(), i);
        assert(ps.drop_last()[i] == ps[i]);
    } else {
        assert(ps.last() == ps[i]);
    }
}

/// Appends a copy of `s` to `out`.
pub fn push_bytes(out: &mut Vec<u8>, s: &[u8])
    ensures
        final(out)@ == old(out)@ + s@,
{
    let mut i: usize = 0;
    while i < s.len()
        invariant
            i <= s.len(),
            out@ == old(out)@ + s@.take(i as int),
        decreases s.len() - i,
    {
        out.push(s[i]);
        proof {
            assert(out@ =~= old(out)@ + s@.take(i as int + 1));
        }
        i += 1;
    }
    proof {
        assert(s@.take(s@.len() as int) =~= s@);
    }
}

/// The lower-case hex digit character for a value below 16.
fn hex_digit_byte(n: u8) -> (r: u8)
    requires
        n < 16,
    ensures
        r == hex_digit(n),
{
    if n < 10 {
        0x30 + n
    } else {
        0x57 + n
    }
}

/// Appends the escaped form of the string content `c` to `out`.
fn write_escaped(c: &[u8], out: &mut Vec<u8>)
    ensures
        final(out)@ == old(out)@ + esc_bytes(c@),
{
    let mut i: usize = 0;
    while i < c.len()
        invariant
            i <= c.len(),
            out@ == old(out)@ + esc_bytes(c@.take(i as int)),
        decreases c.len() - i,
    {
        let b = c[i];
        if b == 0x22 || b == 0x5c {
            out.push(0x5c);
            out.push(b);
        } else if b == 0x0a {
            out.push(0x5c);
            out.push(0x6e);
        } else if b == 0x0d {
            out.push(0x5c);
            out.push(0x72);
        } else if b == 0x09 {
            out.push(0x5c);
            out.push(0x74);
        } else if b < 0x20 {
            out.push(0x5c);
            out.push(0x75);
            out.push(0x30);
            out.push(0x30);
            out.push(hex_digit_byte(b / 16));
            out.push(hex_digit_byte(b % 16));
        } else {
            out.push(b);
        }
        proof {
            assert(c@.take(i as int + 1).drop_last() =~= c@.take(i as int));
            assert(c@.take(i as int + 1).last() == c@[i as int]);
            assert(out@ =~= old(out)@ + esc_bytes(c@.take(i as int + 1)));
        }
        i += 1;
    }
    proof {
        assert(c@.take(c@.len() as int) =~= c@);
    }
}

/// Appends the canonical encoding of `v` to `out`.
#[verifier::loop_isolation(false)]
pub fn write_value(v: &JsonValue, out: &mut Vec<u8>)
    ensures
        final(out)@ == old(out)@ + spec_encode(v@),
    decreases jsize(v@),
{
    match v {
        JsonValue::Null => {
            out.push(0x6e);
            out.push(0x75);
            out.push(0x6c);
            out.push(0x6c);
            proof {
                assert(out@ =~= old(out)@ + spec_encode(v@));
            }
        },
        JsonValue::Bool(b) => {
            if *b {
                out.push(0x74);
                out.push(0x72);
                out.push(0x75);
                out.push(0x65);
            } else {
                out.push(0x66);
                out.push(0x61);
                out.push(0x6c);
                out.push(0x73);
                out.push(0x65);
            }
            proof {
                assert(out@ =~= old(out)@ + spec_encode(v@));
            }
        },
        JsonValue::Num(t) => {
            push_bytes(out, t.as_slice());
        },
        JsonValue::Str(c) => {
            out.push(0x22);
            write_escaped(c.as_slice(), out);
            out.push(0x22);
            proof {
                assert(out@ =~= old(out)@ + spec_encode(v@));
            }
        },
        JsonValue::Arr(es) => {
            out.push(0x5b);
            let mut i: usize = 0;
            while i < es.len()
                invariant
                    i <= es.len(),
                    out@ == old(out)@ + seq![0x5bu8] + spec_encode_elems(
                        elems_view(es@.take(i as int)),
                    ),
                decreases es.len() - i,
            {
                if i > 0 {
                    out.push(0x2c);
                }
                proof {
                    assert(v@ is Arr);
                    assert(v@ == JsonSpec::Arr(elems_view(es@)));
                    lemma_elems_view_index(es@, i as int);
                    lemma_jsize_elem(elems_view(es@), i as int);
                    assert(jsize(es@[i as int]@) < jsize(v@));
                }
                write_value(&es[i], out);
                proof {
                    lemma_elems_view_snoc(es@, i as int);
                    lemma_elems_view_len(es@.take(i as int));
                    lemma_elems_view_len(es@.take(i as int + 1));
                    let prev = elems_view(es@.take(i as int));
                    let next = elems_view(es@.take(i as int + 1));
                    assert(next.drop_last() =~= prev);
                    assert(next.last() == es@[i as int]@);
                    if i == 0 {
                        assert(next[0] == es@[0]@);
                        assert(spec_encode_elems(next) == spec_encode(es@[0]@));
                    } else {
                        assert(spec_encode_elems(next) == spec_encode_elems(prev) + seq![0x2cu8]
                            + spec_encode(es@[i as int]@));
                    }
                    assert(out@ =~= old(out)@ + seq![0x5bu8] + spec_encode_elems(next));
                }
                i += 1;
            }
            out.push(0x5d);
            proof {
                assert(es@.take(es@.len() as int) =~= es@);
                assert(out@ =~= old(out)@ + spec_encode(v@));
            }
        },
        JsonValue::Obj(ps) => {
            out.push(0x7b);
            let mut i: usize = 0;
            while i < ps.len()
                invariant
                    i <= ps.len(),
                    out@ == old(out)@ + seq![0x7bu8] + spec_encode_members(
                        members_view(ps@.take(i as int)),
                    ),
                decreases ps.len() - i,
            {
                if i > 0 {
                    out.push(0x2c);
                }
                out.push(0x22);
                write_escaped(ps[i].0.as_slice(), out);
                out.push(0x22);
                out.push(0x3a);
                proof {
                    assert(v@ == JsonSpec::Obj(members_view(ps@)));
                    lemma_members_view_index(ps@, i as int);
                    lemma_jsize_member(members_view(ps@), i as int);
                    assert(jsize(ps@[i as int].1@) < jsize(v@));
                }
                write_value(&ps[i].1, out);
                proof {
                    lemma_members_view_snoc(ps@, i as int);
                    lemma_members_view_len(ps@.take(i as int));
                    lemma_members_view_len(ps@.take(i as int + 1));
                    let prev = members_view(ps@.take(i as int));
                    let next = members_view(ps@.take(i as int + 1));
                    assert(next.drop_last() =~= prev);
                    assert(next.last() == (ps@[i as int].0@, ps@[i as int].1@));
                    let m = spec_encode_member((ps@[i as int].0@, ps@[i as int].1@));
                    if i == 0 {
                        assert(next[0] == (ps@[0].0@, ps@[0].1@));
                        assert(spec_encode_members(next) == m);
                    } else {
                        assert(spec_encode_members(next) == spec_encode_members(prev)
                            + seq![0x2cu8] + m);
                    }
                    assert(out@ =~= old(out)@ + seq![0x7bu8] + spec_encode_members(next));
                }
                i += 1;
            }
            out.push(0x7d);
            proof {
                assert(ps@.take(ps@.len() as int) =~= ps@);
                assert(out@ =~= old(out)@ + spec_encode(v@));
            }
        },
    }
}

/// The canonical encoding of `v` as a byte vector.
pub fn encode_json(v: &JsonValue) -> (out: Vec<u8>)
    ensures
        out@ == spec_encode(v@),
{
    let mut out: Vec<u8> = Vec::new();
    write_value(v, &mut out);
    proof {
        assert(out@ =~= spec_encode(v@));
    }
    out
}

/// The model of a list of elements has the list's length.
pub proof fn lemma_elems_view_len(es: Seq<JsonValue>)
    ensures
        elems_view(es).len() == es.len(),
    decreases es.len(),
{
    if es.len() == 0 {
        assert(elems_view(es) =~= Seq::<JsonSpec>::empty());
    } else {
        lemma_elems_view_len(es.drop_last());
        assert(elems_view(es) == elems_view(es.drop_last()).push(es.last()@));
    }
}

/// Extending a list of elements by one extends its model by that element.
pub proof fn lemma_elems_view_snoc(es: Seq<JsonValue>, i: int)
    requires
        0 <= i < es.len(),
    ensures
        elems_view(es.take(i + 1)) == elems_view(es.take(i)).push(es[i]@),
{
    assert(es.take(i + 1).drop_last() =~= es.take(i));
    assert(es.take(i + 1).last() == es[i]);
}

/// The model of a list of members has the list's length.
pub proof fn lemma_members_view_len(ps: Seq<(Vec<u8>, JsonValue)>)
    ensures
        members_view(ps).len() == ps.len(),
    decreases ps.len(),
{
    if ps.len() == 0 {
        assert(members_view(ps) =~= Seq::<(Seq<u8>, JsonSpec)>::empty());
    } else {
        lemma_members_view_len(ps.drop_last());
        assert(members_view(ps) == members_view(ps.drop_last()).push(
            (ps.last().0@, ps.last().1@),
        ));
    }
}

/// Extending a list of members by one extends its model by that member.
pub proof fn lemma_members_view_snoc(ps: Seq<(Vec<u8>, JsonValue)>, i: int)
    requires
        0 <= i < ps.len(),
    ensures
        members_view(ps.take(i + 1)) == members_view(ps.take(i)).push(
            (ps[i].0@, ps[i].1@),
        ),
{
    assert(ps.take(i + 1).drop_last() =~= ps.take(i));
    assert(ps.take(i + 1).last() == ps[i]);
}

} // verus!
