//! Physical resource ids: version-4 UUIDs carried in their canonical
//! hyphenated text form, 36 bytes of lower-case hex with hyphens after the
//! 8th, 13th, 18th and 23rd character.

use vstd::prelude::*;
use crate::parse::is_hex;

verus! {

/// True of a lower-case hex digit character.
pub open spec fn is_hex_lower(b: u8) -> bool {
    (0x30 <= b && b <= 0x39) || (0x61 <= b && b <= 0x66)
}

/// What the canonical text holds at position `i`: a hyphen at the four
/// fixed positions, a lower-case hex digit everywhere else.
pub open spec fn uuid_byte_ok(s: Seq<u8>, i: int) -> bool
    recommends
        0 <= i < s.len(),
{
    if i == 8 || i == 13 || i == 18 || i == 23 {
        s[i] == 0x2d
    } else {
        is_hex_lower(s[i])
    }
}

/// Canonical hyphenated UUID text.
pub open spec fn uuid_wf(s: Seq<u8>) -> bool {
    s.len() == 36 && forall|i: int| 0 <= i < 36 ==> #[trigger] uuid_byte_ok(s, i)
}

/// What an accepted input holds at position `i`: as the canonical form,
/// but hex digits of either case.
pub open spec fn uuid_in_byte_ok(s: Seq<u8>, i: int) -> bool
    recommends
        0 <= i < s.len(),
{
    if i == 8 || i == 13 || i == 18 || i == 23 {
        s[i] == 0x2d
    } else {
        is_hex(s[i])
    }
}

/// Hyphenated UUID text, hex digits of either case.
pub open spec fn uuid_text_ok(s: Seq<u8>) -> bool {
    s.len() == 36 && forall|i: int| 0 <= i < 36 ==> #[trigger] uuid_in_byte_ok(s, i)
}

/// An upper-case hex digit folded to lower case; everything else kept.
pub open spec fn lower_hex_byte(b: u8) -> u8 {
    if 0x41 <= b && b <= 0x46 {
        (b + 0x20) as u8
    } else {
        b
    }
}

/// The canonical form of accepted UUID text, or nothing.
pub open spec fn spec_norm_uuid(s: Seq<u8>) -> Option<Seq<u8>> {
    if uuid_text_ok(s) {
        Some(s.map_values(|b: u8| lower_hex_byte(b)))
    } else {
        None
    }
}

/// A version-4 UUID, held as its canonical hyphenated text.
#[derive(Debug)]
pub struct Uuid {
    /// The canonical 36-byte text.
    pub text: Vec<u8>,
}

impl Uuid {
    /// The held text is canonical.
    pub open spec fn wf(&self) -> bool {
        uuid_wf(self.text@)
    }

    /// Reads hyphenated UUID text, accepting hex digits of either case and
    /// storing the lower-case form; rejects anything else.
    #[verifier::loop_isolation(false)]
    pub fn parse(t: &[u8]) -> (r: Option<Uuid>)
        ensures
            match r {
                None => spec_norm_uuid(t@) is None,
                Some(u) => spec_norm_uuid(t@) == Some(u.text@) && u.wf(),
            },
    {
        if t.len() != 36 {
            return None;
        }
        let mut out: Vec<u8> = Vec::new();
        let mut i: usize = 0;
        while i < 36
            invariant
                0 <= i <= 36,
                out@.len() == i,
                forall|k: int| 0 <= k < i ==> #[trigger] uuid_in_byte_ok(t@, k),
                forall|k: int| 0 <= k < i ==> #[trigger] out@[k] == lower_hex_byte(t@[k]),
            decreases 36 - i,
        {
            let b = t[i];
            if i == 8 || i == 13 || i == 18 || i == 23 {
                if b != 0x2d {
                    proof {
                        assert(!uuid_in_byte_ok(t@, i as int));
                    }
                    return None;
                }
                out.push(b);
            } else if (0x30 <= b && b <= 0x39) || (0x61 <= b && b <= 0x66) {
                out.push(b);
            } else if 0x41 <= b && b <= 0x46 {
                out.push(b + 0x20);
            } else {
                proof {
                    assert(!uuid_in_byte_ok(t@, i as int));
                }
                return None;
            }
            i += 1;
        }
        proof {
            assert(uuid_text_ok(t@));
            assert(out@ =~= t@.map_values(|b: u8| lower_hex_byte(b)));
            assert forall|k: int| 0 <= k < 36 implies #[trigger] uuid_byte_ok(out@, k) by {
                assert(uuid_in_byte_ok(t@, k));
                assert(out@[k] == lower_hex_byte(t@[k]));
            }
            assert(uuid_wf(out@));
        }
        Some(Uuid { text: out })
    }

    /// A copy of the canonical text.
    pub fn text_bytes(&self) -> (r: Vec<u8>)
        ensures
            r@ == self.text@,
    {
        vstd::slice::slice_to_vec(self.text.as_slice())
    }

    /// A fresh random version-4 UUID.
    ///
    /// Relies on `uuid::Uuid::new_v4` for the randomness and on the crate's
    /// hyphenated formatter, which writes exactly the canonical 36-byte
    /// lower-case hyphenated hex form.
    #[verifier::external_body]
    pub(crate) fn fresh() -> (r: Uuid)
        ensures
            r.wf(),
    {
        Uuid { text: ::uuid::Uuid::new_v4().hyphenated().to_string().into_bytes() }
    }
}

} // verus!
