//! The random identifier generator the flow and renaming passes draw fresh
//! names from. Every emitted name has length 3 to 10, consists of lowercase
//! letters and underscores, starts and ends with a letter, and never holds
//! two underscores in a row.

use vstd::prelude::*;
use crate::cipher::push_char;
use crate::rng::{rand_range_u32, rand_ratio};
use crate::ast::{valid_ident, ident_start_char, ident_char};

verus! {

/// Whether a character is a lowercase letter.
pub open spec fn lower_char(c: char) -> bool {
    'a' <= c && c <= 'z'
}

/// The shape of every identifier the generator emits: length 3 to 10,
/// lowercase letters and underscores only, first and last a letter, never
/// two underscores in a row.
pub open spec fn valid_obf_ident(s: Seq<char>) -> bool {
    &&& 3 <= s.len() <= 10
    &&& forall|i: int| 0 <= i < s.len() ==> (lower_char(#[trigger] s[i]) || s[i] == '_')
    &&& lower_char(s[0])
    &&& lower_char(s[s.len() - 1])
    &&& forall|i: int| 0 <= i < s.len() - 1 ==> !(#[trigger] s[i] == '_' && s[i + 1] == '_')
}

/// Every generated identifier is in particular a syntactically valid
/// identifier, so renaming keeps a well-formed tree well formed.
pub proof fn lemma_obf_ident_valid(s: Seq<char>)
    requires
        valid_obf_ident(s),
    ensures
        valid_ident(s),
{
    assert(ident_start_char(s[0]));
    assert forall|i: int| 0 <= i < s.len() implies ident_char(#[trigger] s[i]) by {
        assert(lower_char(s[i]) || s[i] == '_');
    }
}

/// Draws a uniformly random lowercase letter.
fn rand_lower(rng: &mut rand::rngs::ThreadRng) -> (c: char)
    ensures
        lower_char(c),
{
    let u = rand_range_u32(rng, 97, 122);
    (u as u8) as char
}

/// Generates a fresh pseudo-random identifier. The length is uniform in
/// [3, 10]; each position is a random lowercase letter with probability
/// 0.8 and an underscore otherwise, except that an underscore directly
/// after an underscore is not emitted and a letter is drawn for that
/// position instead; a leading or trailing underscore is replaced by a
/// fresh random letter.
pub fn random_name(rng: &mut rand::rngs::ThreadRng) -> (r: String)
    ensures
        valid_obf_ident(r@),
{
    let target_u32 = rand_range_u32(rng, 3, 10);
    let target = target_u32 as usize;
    let mut name: Vec<char> = Vec::new();
    let mut last_underscore = false;
    while name.len() < target
        invariant
            3 <= target <= 10,
            name@.len() <= target,
            forall|i: int|
                0 <= i < name@.len() ==> (lower_char(#[trigger] name@[i]) || name@[i] == '_'),
            forall|i: int|
                0 <= i < name@.len() - 1 ==> !(#[trigger] name@[i] == '_' && name@[i + 1] == '_'),
            last_underscore == (name@.len() > 0 && name@[name@.len() - 1] == '_'),
        decreases target - name@.len(),
    {
        if last_underscore || rand_ratio(rng, 4, 5) {
            let c = rand_lower(rng);
            name.push(c);
            last_underscore = false;
        } else {
            name.push('_');
            last_underscore = true;
        }
    }
    if name[0] as u32 == 95 {
        let c = rand_lower(rng);
        name.set(0, c);
    }
    let last = name.len() - 1;
    if name[last] as u32 == 95 {
        let c = rand_lower(rng);
        name.set(last, c);
    }
    let mut out = String::new();
    let mut i: usize = 0;
    while i < name.len()
        invariant
            i <= name@.len(),
            out@ == name@.take(i as int),
        decreases name@.len() - i,
    {
        push_char(&mut out, name[i]);
        proof {
            assert(out@ =~= name@.take(i + 1 as int));
        }
        i = i + 1;
    }
    proof {
        assert(name@.take(name@.len() as int) =~= name@);
    }
    out
}

} // verus!
