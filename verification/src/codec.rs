//! The cache file format: one entry — revalidation time, tool version,
//! secret variables — framed as length-prefixed bytes. The decoder is
//! proven to undo the encoder, and to accept nothing but canonical
//! encodings.
//!
//! Layout: eight little-endian bytes each for the revalidation time, the
//! three version components and the pair count, then for every pair the
//! key and the value, each as an eight-byte length followed by its UTF-8
//! bytes. Nothing may follow the last pair.

use vstd::prelude::*;
use vstd::bytes::{spec_u64_to_le_bytes, spec_u64_from_le_bytes, u64_to_le_bytes, u64_from_le_bytes};
use vstd::bytes::lemma_auto_spec_u64_to_from_le_bytes;
use vstd::utf8::{encode_utf8, decode_utf8, valid_utf8};
use vstd::slice::{slice_subrange, slice_to_vec};
use crate::secrets::{Secrets, keys_unique};
use crate::version::Version;

verus! {

broadcast use vstd::utf8::encode_utf8_valid_utf8, vstd::utf8::encode_utf8_decode_utf8;

/// The string's UTF-8 form is short enough for its eight-byte length field.
pub open spec fn str_len_ok(cs: Seq<char>) -> bool {
    encode_utf8(cs).len() <= u64::MAX
}

/// Every key and value of the pairs fits its length field.
pub open spec fn pairs_len_ok(s: Seq<(Seq<char>, Seq<char>)>) -> bool {
    forall|i: int| 0 <= i < s.len()
        ==> str_len_ok((#[trigger] s[i]).0) && str_len_ok(s[i].1)
}

/// One string: its UTF-8 length as eight bytes, then the UTF-8 bytes.
pub open spec fn spec_encode_str(cs: Seq<char>) -> Seq<u8> {
    spec_u64_to_le_bytes(encode_utf8(cs).len() as u64) + encode_utf8(cs)
}

/// The pairs in order, each as its key then its value.
pub open spec fn spec_encode_pairs(s: Seq<(Seq<char>, Seq<char>)>) -> Seq<u8>
    decreases s.len(),
{
    if s.len() == 0 {
        Seq::empty()
    } else {
        spec_encode_str(s[0].0) + spec_encode_str(s[0].1) + spec_encode_pairs(s.drop_first())
    }
}

/// A whole entry: the five header fields, then the pairs.
pub open spec fn spec_encode_entry(
    last_revalidation: u64,
    version: Version,
    vars: Seq<(Seq<char>, Seq<char>)>,
) -> Seq<u8> {
    spec_u64_to_le_bytes(last_revalidation) + spec_u64_to_le_bytes(version.major)
        + spec_u64_to_le_bytes(version.minor) + spec_u64_to_le_bytes(version.patch)
        + spec_u64_to_le_bytes(vars.len() as u64) + spec_encode_pairs(vars)
}

/// Reads one length-prefixed string off the front of `b`: the decoded
/// characters and what remains.
pub open spec fn spec_decode_str(b: Seq<u8>) -> Option<(Seq<char>, Seq<u8>)> {
    if b.len() < 8 {
        Option::None
    } else {
        let n = spec_u64_from_le_bytes(b.subrange(0, 8)) as int;
        if b.len() - 8 < n {
            Option::None
        } else {
            let sb = b.subrange(8, 8 + n);
            if valid_utf8(sb) {
                Option::Some((decode_utf8(sb), b.skip(8 + n)))
            } else {
                Option::None
            }
        }
    }
}

/// Reads exactly `n` pairs, which must consume all of `b`.
pub open spec fn spec_decode_pairs(b: Seq<u8>, n: nat) -> Option<Seq<(Seq<char>, Seq<char>)>>
    decreases n,
{
    if n == 0 {
        if b.len() == 0 {
            Option::Some(Seq::empty())
        } else {
            Option::None
        }
    } else {
        match spec_decode_str(b) {
            Option::None => Option::None,
            Option::Some((k, r1)) => match spec_decode_str(r1) {
                Option::None => Option::None,
                Option::Some(kv) => match spec_decode_pairs(kv.1, (n - 1) as nat) {
                    Option::None => Option::None,
                    Option::Some(rest) => Option::Some(seq![(k, kv.0)] + rest),
                },
            },
        }
    }
}

/// Reads a whole entry; any malformed input reads as nothing.
pub open spec fn spec_decode_entry(b: Seq<u8>) -> Option<(u64, Version, Seq<(Seq<char>, Seq<char>)>)> {
    if b.len() < 40 {
        Option::None
    } else {
        let l = spec_u64_from_le_bytes(b.subrange(0, 8));
        let major = spec_u64_from_le_bytes(b.subrange(8, 16));
        let minor = spec_u64_from_le_bytes(b.subrange(16, 24));
        let patch = spec_u64_from_le_bytes(b.subrange(24, 32));
        let n = spec_u64_from_le_bytes(b.subrange(32, 40));
        match spec_decode_pairs(b.skip(40), n as nat) {
            Option::None => Option::None,
            Option::Some(vars) => if keys_unique(vars) {
                Option::Some((l, Version { major, minor, patch }, vars))
            } else {
                Option::None
            },
        }
    }
}

/// Relies on String::from_utf8: it succeeds exactly on valid UTF-8 and
/// yields the characters that encoding describes.
#[verifier::external_body]
fn bytes_to_string(v: Vec<u8>) -> (r: Option<String>)
    ensures
        match r {
            Some(s) => valid_utf8(v@) && s@ == decode_utf8(v@),
            None => !valid_utf8(v@),
        },
{
    match String::from_utf8(v) {
        Ok(s) => Some(s),
        Err(_) => None,
    }
}

/// Appends the encoding of one string.
fn encode_str_into(out: &mut Vec<u8>, s: &str)
    ensures
        final(out)@ == old(out)@ + spec_encode_str(s@),
        str_len_ok(s@),
{
    let sb = s.as_bytes();
    let mut lb = u64_to_le_bytes(sb.len() as u64);
    out.append(&mut lb);
    out.extend_from_slice(sb);
    proof {
        assert(final(out)@ =~= old(out)@ + spec_encode_str(s@));
    }
}

/// Encodes an entry; `spec_encode_entry` is exactly what comes out.
pub fn encode_entry(last_revalidation: u64, version: &Version, variables: &Secrets) -> (r: Vec<u8>)
    ensures
        r@ == spec_encode_entry(last_revalidation, *version, variables@),
        pairs_len_ok(variables@),
        variables@.len() <= u64::MAX,
{
    let pairs = variables.as_vec();
    let ghost vars = variables@;
    let mut out = u64_to_le_bytes(last_revalidation);
    let mut b = u64_to_le_bytes(version.major);
    out.append(&mut b);
    let mut b = u64_to_le_bytes(version.minor);
    out.append(&mut b);
    let mut b = u64_to_le_bytes(version.patch);
    out.append(&mut b);
    let mut b = u64_to_le_bytes(pairs.len() as u64);
    out.append(&mut b);
    let ghost header = out@;
    proof {
        assert(spec_encode_pairs(vars.take(0)) =~= Seq::<u8>::empty());
        assert(out@ =~= header + spec_encode_pairs(vars.take(0)));
    }
    let n = pairs.len();
    let mut i: usize = 0;
    while i < n
        invariant
            n == pairs@.len() == vars.len(),
            forall|k: int| 0 <= k < n ==> (#[trigger] pairs@[k]).0@ == vars[k].0
                && pairs@[k].1@ == vars[k].1,
            i <= n,
            out@ == header + spec_encode_pairs(vars.take(i as int)),
            forall|k: int| 0 <= k < i ==> str_len_ok((#[trigger] vars[k]).0)
                && str_len_ok(vars[k].1),
        decreases n - i,
    {
        encode_str_into(&mut out, pairs[i].0.as_str());
        encode_str_into(&mut out, pairs[i].1.as_str());
        proof {
            lemma_encode_pairs_take_step(vars, i as int);
            assert(out@ =~= header + spec_encode_pairs(vars.take(i + 1)));
        }
        i += 1;
    }
    proof {
        assert(vars.take(n as int) =~= vars);
        assert(out@ =~= spec_encode_entry(last_revalidation, *version, vars));
    }
    out
}

/// What a well-formed stored entry's variables are sure to satisfy: unique
/// keys, and lengths the format can frame again.
pub proof fn lemma_decode_entry_wf(b: Seq<u8>)
    requires
        spec_decode_entry(b) is Some,
    ensures
        ({
            let t = spec_decode_entry(b)->0;
            keys_unique(t.2) && pairs_len_ok(t.2) && t.2.len() <= u64::MAX
        }),
{
    let n = spec_u64_from_le_bytes(b.subrange(32, 40));
    lemma_decode_pairs_len_ok(b.skip(40), n as nat);
}

/// One more pair extends the encoding by that pair's bytes.
proof fn lemma_encode_pairs_take_step(s: Seq<(Seq<char>, Seq<char>)>, i: int)
    requires
        0 <= i < s.len(),
    ensures
        spec_encode_pairs(s.take(i + 1)) == spec_encode_pairs(s.take(i))
            + spec_encode_str(s[i].0) + spec_encode_str(s[i].1),
    decreases i,
{
    if i == 0 {
        assert(s.take(1)[0] == s[0]);
        assert(s.take(1).drop_first() =~= s.take(0));
        assert(s.take(0).len() == 0);
        assert(spec_encode_pairs(s.take(0)) =~= Seq::<u8>::empty());
        assert(spec_encode_pairs(s.take(1))
            =~= spec_encode_str(s[0].0) + spec_encode_str(s[0].1));
        assert(spec_encode_pairs(s.take(i + 1)) =~= spec_encode_pairs(s.take(i))
            + spec_encode_str(s[0].0) + spec_encode_str(s[0].1));
    } else {
        lemma_encode_pairs_take_step(s.drop_first(), i - 1);
        assert(s.take(i + 1).drop_first() =~= s.drop_first().take(i));
        assert(s.take(i).drop_first() =~= s.drop_first().take(i - 1));
        assert(s.drop_first()[i - 1] == s[i]);
        assert(spec_encode_pairs(s.take(i + 1)) =~= spec_encode_pairs(s.take(i))
            + spec_encode_str(s[i].0) + spec_encode_str(s[i].1));
    }
}

/// Reads one string at `pos`; mirrors `spec_decode_str` on the suffix.
fn decode_str_at(bytes: &[u8], pos: usize) -> (r: Option<(String, usize)>)
    requires
        pos <= bytes@.len(),
    ensures
        match r {
            Some(sp) => pos < sp.1 <= bytes@.len()
                && spec_decode_str(bytes@.skip(pos as int))
                    == Option::Some((sp.0@, bytes@.skip(sp.1 as int))),
            None => spec_decode_str(bytes@.skip(pos as int)) is None,
        },
{
    let ghost suffix = bytes@.skip(pos as int);
    let avail = bytes.len() - pos;
    if avail < 8 {
        return None;
    }
    let lb = slice_subrange(bytes, pos, pos + 8);
    let n_u64 = u64_from_le_bytes(lb);
    proof {
        assert(lb@ =~= suffix.subrange(0, 8));
    }
    if n_u64 > (avail - 8) as u64 {
        return None;
    }
    let n = n_u64 as usize;
    let sb = slice_subrange(bytes, pos + 8, pos + 8 + n);
    proof {
        assert(sb@ =~= suffix.subrange(8, 8 + n_u64 as int));
    }
    let sv = slice_to_vec(sb);
    match bytes_to_string(sv) {
        Some(s) => {
            proof {
                assert(bytes@.skip((pos + 8 + n) as int) =~= suffix.skip(8 + n_u64 as int));
            }
            Some((s, pos + 8 + n))
        },
        None => None,
    }
}

/// Decodes an entry; `spec_decode_entry` is exactly what comes out, the
/// variables rebuilt as a well-formed secret map.
pub fn decode_entry(bytes: &[u8]) -> (r: Option<(u64, Version, Secrets)>)
    ensures
        match r {
            Some(t) => t.2.wf()
                && spec_decode_entry(bytes@) == Option::Some((t.0, t.1, t.2@))
                && bytes@ == spec_encode_entry(t.0, t.1, t.2@),
            None => spec_decode_entry(bytes@) is None,
        },
{
    if bytes.len() < 40 {
        return None;
    }
    let l = u64_from_le_bytes(slice_subrange(bytes, 0, 8));
    let major = u64_from_le_bytes(slice_subrange(bytes, 8, 16));
    let minor = u64_from_le_bytes(slice_subrange(bytes, 16, 24));
    let patch = u64_from_le_bytes(slice_subrange(bytes, 24, 32));
    let n_u64 = u64_from_le_bytes(slice_subrange(bytes, 32, 40));
    let ghost tail = bytes@.skip(40);
    let mut acc: Vec<(String, String)> = Vec::new();
    let mut pos: usize = 40;
    let mut i: u64 = 0;
    while i < n_u64
        invariant
            40 <= pos <= bytes@.len(),
            i <= n_u64,
            tail == bytes@.skip(40),
            n_u64 == spec_u64_from_le_bytes(bytes@.subrange(32, 40)),
            acc@.len() == i,
            ({
                let accv = Seq::new(acc@.len(), |k: int| (acc@[k].0@, acc@[k].1@));
                match spec_decode_pairs(bytes@.skip(pos as int), (n_u64 - i) as nat) {
                    Option::None => spec_decode_pairs(tail, n_u64 as nat) is None,
                    Option::Some(rest) => spec_decode_pairs(tail, n_u64 as nat)
                        == Option::Some(accv + rest),
                }
            }),
        decreases n_u64 - i,
    {
        let ghost accv0 = Seq::new(acc@.len(), |k: int| (acc@[k].0@, acc@[k].1@));
        let ghost sfx = bytes@.skip(pos as int);
        let k = match decode_str_at(bytes, pos) {
            Some(kp) => kp,
            None => {
                proof {
                    assert(spec_decode_pairs(sfx, (n_u64 - i) as nat) is None);
                }
                return None;
            },
        };
        let v = match decode_str_at(bytes, k.1) {
            Some(vp) => vp,
            None => {
                proof {
                    assert(spec_decode_str(sfx) == Option::Some((k.0@, bytes@.skip(k.1 as int))));
                    assert(spec_decode_pairs(sfx, (n_u64 - i) as nat) is None);
                }
                return None;
            },
        };
        acc.push((k.0, v.0));
        pos = v.1;
        proof {
            let accv1 = Seq::new(acc@.len(), |k: int| (acc@[k].0@, acc@[k].1@));
            assert(accv1 =~= accv0.push((accv1.last().0, accv1.last().1)));
            match spec_decode_pairs(bytes@.skip(pos as int), (n_u64 - i - 1) as nat) {
                Option::None => {},
                Option::Some(rest) => {
                    assert(spec_decode_pairs(sfx, (n_u64 - i) as nat)
                        == Option::Some(seq![(accv1.last().0, accv1.last().1)] + rest));
                    assert(accv0 + (seq![(accv1.last().0, accv1.last().1)] + rest)
                        =~= accv1 + rest);
                },
            }
        }
        i += 1;
    }
    if pos != bytes.len() {
        proof {
            assert(bytes@.skip(pos as int).len() != 0);
        }
        return None;
    }
    proof {
        assert(bytes@.skip(pos as int).len() == 0);
        let accv = Seq::new(acc@.len(), |k: int| (acc@[k].0@, acc@[k].1@));
        assert(accv + Seq::<(Seq<char>, Seq<char>)>::empty() =~= accv);
    }
    match Secrets::from_unique_pairs(acc) {
        Some(vars) => {
            proof {
                lemma_decode_entry_sound(bytes@);
            }
            Some((l, Version { major, minor, patch }, vars))
        },
        None => None,
    }
}

/// Decoding undoes encoding for one string, whatever follows it.
proof fn lemma_decode_str_of_encode(cs: Seq<char>, rest: Seq<u8>)
    requires
        str_len_ok(cs),
    ensures
        spec_decode_str(spec_encode_str(cs) + rest) == Option::Some((cs, rest)),
{
    lemma_auto_spec_u64_to_from_le_bytes();
    let eb = encode_utf8(cs);
    let b = spec_encode_str(cs) + rest;
    assert(b.subrange(0, 8) =~= spec_u64_to_le_bytes(eb.len() as u64));
    assert(spec_u64_from_le_bytes(b.subrange(0, 8)) == eb.len());
    assert(b.subrange(8, 8 + eb.len() as int) =~= eb);
    assert(valid_utf8(eb));
    assert(decode_utf8(eb) == cs);
    assert(b.skip(8 + eb.len() as int) =~= rest);
}

/// Decoding undoes encoding for a run of pairs.
proof fn lemma_decode_pairs_of_encode(s: Seq<(Seq<char>, Seq<char>)>)
    requires
        pairs_len_ok(s),
    ensures
        spec_decode_pairs(spec_encode_pairs(s), s.len()) == Option::Some(s),
    decreases s.len(),
{
    if s.len() == 0 {
        assert(spec_encode_pairs(s).len() == 0);
    } else {
        let d = s.drop_first();
        assert(pairs_len_ok(d)) by {
            assert(forall|i: int| 0 <= i < d.len() ==> #[trigger] d[i] == s[i + 1]);
        }
        lemma_decode_pairs_of_encode(d);
        let b = spec_encode_pairs(s);
        assert(b =~= spec_encode_str(s[0].0) + (spec_encode_str(s[0].1) + spec_encode_pairs(d)));
        lemma_decode_str_of_encode(s[0].0, spec_encode_str(s[0].1) + spec_encode_pairs(d));
        lemma_decode_str_of_encode(s[0].1, spec_encode_pairs(d));
        assert(seq![(s[0].0, s[0].1)] + d =~= s);
    }
}

/// Whatever a run of pairs decodes to fits the length fields it came from.
proof fn lemma_decode_pairs_len_ok(b: Seq<u8>, n: nat)
    requires
        spec_decode_pairs(b, n) is Some,
    ensures
        pairs_len_ok(spec_decode_pairs(b, n)->0),
        (spec_decode_pairs(b, n)->0).len() == n,
    decreases n,
{
    broadcast use vstd::utf8::decode_utf8_encode_utf8;

    if n != 0 {
        let (k, r1) = spec_decode_str(b)->0;
        let (v, r2) = spec_decode_str(r1)->0;
        lemma_decode_pairs_len_ok(r2, (n - 1) as nat);
        let rest = spec_decode_pairs(r2, (n - 1) as nat)->0;
        let s = spec_decode_pairs(b, n)->0;
        assert(s == seq![(k, v)] + rest);
        assert(str_len_ok(k)) by {
            let kb = b.subrange(8, 8 + spec_u64_from_le_bytes(b.subrange(0, 8)) as int);
            assert(encode_utf8(decode_utf8(kb)) == kb);
        }
        assert(str_len_ok(v)) by {
            let vb = r1.subrange(8, 8 + spec_u64_from_le_bytes(r1.subrange(0, 8)) as int);
            assert(encode_utf8(decode_utf8(vb)) == vb);
        }
        assert(forall|i: int| 0 <= i < s.len() ==> #[trigger] s[i] == (seq![(k, v)] + rest)[i]);
    }
}

/// What one string decoded from the front of `b` re-encodes to: exactly
/// the bytes it was read from.
proof fn lemma_decode_str_sound(b: Seq<u8>)
    requires
        spec_decode_str(b) is Some,
    ensures
        b == spec_encode_str((spec_decode_str(b)->0).0) + (spec_decode_str(b)->0).1,
{
    broadcast use vstd::utf8::decode_utf8_encode_utf8;

    lemma_auto_spec_u64_to_from_le_bytes();
    let n = spec_u64_from_le_bytes(b.subrange(0, 8)) as int;
    let sb = b.subrange(8, 8 + n);
    let cs = decode_utf8(sb);
    assert(encode_utf8(cs) == sb);
    assert(spec_u64_to_le_bytes(spec_u64_from_le_bytes(b.subrange(0, 8))) == b.subrange(0, 8));
    assert(b =~= b.subrange(0, 8) + sb + b.skip(8 + n));
}

/// What a run of pairs decodes to re-encodes to the bytes it was read
/// from.
proof fn lemma_decode_pairs_sound(b: Seq<u8>, n: nat)
    requires
        spec_decode_pairs(b, n) is Some,
    ensures
        b == spec_encode_pairs(spec_decode_pairs(b, n)->0),
    decreases n,
{
    if n == 0 {
        assert(b =~= spec_encode_pairs(spec_decode_pairs(b, n)->0));
    } else {
        let (k, r1) = spec_decode_str(b)->0;
        let (v, r2) = spec_decode_str(r1)->0;
        lemma_decode_str_sound(b);
        lemma_decode_str_sound(r1);
        lemma_decode_pairs_sound(r2, (n - 1) as nat);
        let rest = spec_decode_pairs(r2, (n - 1) as nat)->0;
        let s = spec_decode_pairs(b, n)->0;
        assert(s == seq![(k, v)] + rest);
        assert(s[0] == (k, v));
        assert(s.drop_first() =~= rest);
        assert(b =~= spec_encode_str(k) + spec_encode_str(v) + spec_encode_pairs(rest));
    }
}

/// The decoder accepts only canonical bytes: whatever it reads an entry
/// from is exactly that entry's encoding.
pub proof fn lemma_decode_entry_sound(b: Seq<u8>)
    requires
        spec_decode_entry(b) is Some,
    ensures
        ({
            let t = spec_decode_entry(b)->0;
            b == spec_encode_entry(t.0, t.1, t.2)
        }),
{
    lemma_auto_spec_u64_to_from_le_bytes();
    let t = spec_decode_entry(b)->0;
    let n = spec_u64_from_le_bytes(b.subrange(32, 40));
    lemma_decode_pairs_sound(b.skip(40), n as nat);
    lemma_decode_pairs_len_ok(b.skip(40), n as nat);
    assert(t.2.len() == n);
    assert(spec_u64_to_le_bytes(spec_u64_from_le_bytes(b.subrange(0, 8))) == b.subrange(0, 8));
    assert(spec_u64_to_le_bytes(spec_u64_from_le_bytes(b.subrange(8, 16))) == b.subrange(8, 16));
    assert(spec_u64_to_le_bytes(spec_u64_from_le_bytes(b.subrange(16, 24))) == b.subrange(16, 24));
    assert(spec_u64_to_le_bytes(spec_u64_from_le_bytes(b.subrange(24, 32))) == b.subrange(24, 32));
    assert(spec_u64_to_le_bytes(spec_u64_from_le_bytes(b.subrange(32, 40))) == b.subrange(32, 40));
    assert(b =~= b.subrange(0, 8) + b.subrange(8, 16) + b.subrange(16, 24) + b.subrange(24, 32)
        + b.subrange(32, 40) + b.skip(40));
}

/// The round trip: decoding an encoded entry yields that entry, whenever
/// its variables carry unique keys and fit their length fields.
pub proof fn lemma_entry_round_trip(
    last_revalidation: u64,
    version: Version,
    vars: Seq<(Seq<char>, Seq<char>)>,
)
    requires
        keys_unique(vars),
        pairs_len_ok(vars),
        vars.len() <= u64::MAX,
    ensures
        spec_decode_entry(spec_encode_entry(last_revalidation, version, vars))
            == Option::Some((last_revalidation, version, vars)),
{
    lemma_auto_spec_u64_to_from_le_bytes();
    let b = spec_encode_entry(last_revalidation, version, vars);
    assert(b.subrange(0, 8) =~= spec_u64_to_le_bytes(last_revalidation));
    assert(b.subrange(8, 16) =~= spec_u64_to_le_bytes(version.major));
    assert(b.subrange(16, 24) =~= spec_u64_to_le_bytes(version.minor));
    assert(b.subrange(24, 32) =~= spec_u64_to_le_bytes(version.patch));
    assert(b.subrange(32, 40) =~= spec_u64_to_le_bytes(vars.len() as u64));
    assert(b.skip(40) =~= spec_encode_pairs(vars));
    lemma_decode_pairs_of_encode(vars);
}

} // verus!
