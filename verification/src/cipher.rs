//! The symmetric XOR stream cipher that the obfuscator's emitted decrypt
//! calls reverse at run time. Each character of the text is combined with
//! the matching character of a cyclically repeated key by a byte-wise XOR;
//! the operation is self-inverse, so the same map both encrypts and
//! decrypts.

use vstd::prelude::*;
use vstd::string::StrSliceExecFns;

verus! {

/// One step of the stream cipher: the low byte of the input character
/// XORed with the low byte of the key character, read back as a character.
pub open spec fn xor_char(c: char, k: char) -> char {
    (((c as u32) % 256) as u8 ^ ((k as u32) % 256) as u8) as char
}

/// The cipher over a whole text: character-wise XOR against the key,
/// repeated cyclically.
pub open spec fn xor_stream(s: Seq<char>, k: Seq<char>) -> Seq<char> {
    Seq::new(s.len(), |i: int| xor_char(s[i], k[i % (k.len() as int)]))
}

/// Relies on String::push: appends exactly the given character.
#[verifier::external_body]
pub(crate) fn push_char(s: &mut String, c: char)
    ensures
        final(s)@ == old(s)@.push(c),
{
    s.push(c)
}

/// Applies the XOR stream cipher to `input` under `key`. Encrypting and
/// decrypting are the same operation; `decrypt_string` names the decrypting
/// direction.
pub fn xor_cipher(input: &str, key: &str) -> (r: String)
    requires
        key@.len() > 0,
    ensures
        r@ == xor_stream(input@, key@),
{
    let n = input.unicode_len();
    let klen = key.unicode_len();
    let mut out = String::new();
    let mut i: usize = 0;
    while i < n
        invariant
            0 < klen == key@.len(),
            n == input@.len(),
            i <= n,
            out@ == xor_stream(input@, key@).take(i as int),
        decreases n - i,
    {
        let c = input.get_char(i);
        let kc = key.get_char(i % klen);
        let e = (((c as u32) % 256) as u8) ^ (((kc as u32) % 256) as u8);
        push_char(&mut out, e as char);
        proof {
            assert(out@ =~= xor_stream(input@, key@).take(i + 1 as int));
        }
        i = i + 1;
    }
    proof {
        assert(xor_stream(input@, key@).take(n as int) =~= xor_stream(input@, key@));
    }
    out
}

/// Decrypts a text that `xor_cipher` encrypted under the same key.
pub fn decrypt_string(encrypted: &str, key: &str) -> (r: String)
    requires
        key@.len() > 0,
    ensures
        r@ == xor_stream(encrypted@, key@),
{
    xor_cipher(encrypted, key)
}

/// Round trip: decrypting an encryption under the same key restores the
/// original text, for every text whose characters' code points fit in one
/// byte and every non-empty key.
pub proof fn lemma_cipher_round_trip(s: Seq<char>, k: Seq<char>)
    requires
        k.len() > 0,
        forall|i: int| 0 <= i < s.len() ==> (s[i] as u32) < 256,
    ensures
        xor_stream(xor_stream(s, k), k) == s,
{
    let e = xor_stream(s, k);
    assert forall|i: int| 0 <= i < s.len() implies xor_stream(e, k)[i] == s[i] by {
        let kc = k[i % (k.len() as int)];
        let c8 = ((s[i] as u32) % 256) as u8;
        let k8 = ((kc as u32) % 256) as u8;
        assert(e[i] == (c8 ^ k8) as char);
        let e8 = ((e[i] as u32) % 256) as u8;
        assert(xor_stream(e, k)[i] == (e8 ^ k8) as char);
        assert((e[i] as u32) == (c8 ^ k8) as u32);
        assert((((c8 ^ k8) as u32) % 256) as u8 == c8 ^ k8) by (bit_vector);
        assert(e8 == c8 ^ k8);
        assert(((c8 ^ k8) ^ k8) == c8) by (bit_vector);
        assert((s[i] as u32) % 256 == s[i] as u32);
        assert(c8 as u32 == s[i] as u32);
        let c = s[i];
        assert(c8 == (c as u32) as u8);
        assert((c as u32) < 256);
        assert(((c as u32) as u8) as u32 == c as u32);
        vstd::utf8::char_u32_cast(c, c as u32);
        assert(((c as u32) as u8) as char == c);
    }
    assert(xor_stream(e, k) =~= s);
}

} // verus!
