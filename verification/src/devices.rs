//! MIDI output device listing: the engine-side model of an endpoint and
//! the name extraction from the OS's fixed-length, NUL-terminated
//! wide-character buffers.

use vstd::prelude::*;

verus! {

/// One MIDI output endpoint: its OS device index and its display name.
#[derive(Debug)]
pub struct MidiDevice {
    pub id: u32,
    pub name: String,
}

/// Index of the first NUL in a wide-character buffer, or its length when
/// no NUL occurs.
pub open spec fn spec_first_nul(s: Seq<u16>) -> int
    decreases s.len(),
{
    if s.len() == 0 {
        0
    } else if s[0] == 0 {
        0
    } else {
        1 + spec_first_nul(s.drop_first())
    }
}

proof fn lemma_first_nul_at(s: Seq<u16>, i: int)
    requires
        0 <= i <= s.len(),
        forall|j: int| 0 <= j < i ==> s[j] != 0,
        i < s.len() ==> s[i] == 0,
    ensures
        spec_first_nul(s) == i,
    decreases s.len(),
{
    if s.len() > 0 && i > 0 {
        assert(s[0] != 0);
        assert forall|j: int| 0 <= j < i - 1 implies s.drop_first()[j] != 0 by {
            assert(s.drop_first()[j] == s[j + 1]);
        }
        assert(i - 1 < s.drop_first().len() ==> s.drop_first()[i - 1] == 0);
        lemma_first_nul_at(s.drop_first(), i - 1);
    }
}

/// The prefix of a device-name buffer before its first NUL terminator:
/// the OS hands names back as fixed-length arrays padded with NULs, and
/// the name is everything before the first one.
pub fn truncate_at_nul(buf: &Vec<u16>) -> (r: Vec<u16>)
    ensures
        r@ == buf@.take(spec_first_nul(buf@)),
{
    let mut r: Vec<u16> = Vec::new();
    let mut i: usize = 0;
    while i < buf.len()
        invariant
            i <= buf@.len(),
            r@ == buf@.take(i as int),
            forall|j: int| 0 <= j < i ==> buf@[j] != 0,
        decreases buf@.len() - i,
    {
        if buf[i] == 0 {
            proof {
                lemma_first_nul_at(buf@, i as int);
            }
            return r;
        }
        r.push(buf[i]);
        proof {
            assert(buf@.take(i as int).push(buf@[i as int]) =~= buf@.take(i as int + 1));
        }
        i += 1;
    }
    proof {
        lemma_first_nul_at(buf@, buf@.len() as int);
    }
    r
}

} // verus!
