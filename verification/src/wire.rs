//! The postcard encoding that game messages travel in.
//!
//! Postcard writes each value in its own small, documented form: an unsigned
//! integer as a varint, a signed one zigzagged and then as a varint, an
//! `Option` as a byte `0` or `1` followed by the value, and an enum as its
//! variant index followed by the variant's fields. The items here call
//! postcard for each primitive and state, as its source shows them, the bytes
//! it writes and how it reads bytes back; the lemmas prove that a value reads
//! back from the bytes written for it, whatever follows them, and that those
//! bytes cut short are refused.
use vstd::prelude::*;

verus! {

/// The bytes of an unsigned varint: seven bits to a byte, least significant
/// first, with the top bit set on every byte but the last.
pub open spec fn varint_bytes(v: nat) -> Seq<u8>
    decreases v,
{
    if v < 128 {
        seq![v as u8]
    } else {
        seq![(v % 128 + 128) as u8].add(varint_bytes(v / 128))
    }
}

/// Postcard's zigzag: a value that is not negative goes to twice itself, a
/// negative one to the odd number just below twice its size.
pub open spec fn zigzag(v: i32) -> nat {
    if v >= 0 {
        (2 * v) as nat
    } else {
        (-2 * v - 1) as nat
    }
}

/// The signed value a zigzagged number stands for.
pub open spec fn unzigzag(n: u32) -> i32 {
    if n % 2 == 0 {
        (n / 2) as i32
    } else {
        (-((n + 1) / 2)) as i32
    }
}

/// The bytes `postcard::to_allocvec` writes for a `u32`: its varint.
pub open spec fn postcard_u32_bytes(v: u32) -> Seq<u8> {
    varint_bytes(v as nat)
}

/// The bytes `postcard::to_allocvec` writes for an `i32`: the varint of its
/// zigzag.
pub open spec fn postcard_i32_bytes(v: i32) -> Seq<u8> {
    varint_bytes(zigzag(v))
}

/// The bytes `postcard::to_allocvec` writes for an `Option<u32>`: a `0` for
/// nothing, or a `1` followed by the value's varint.
pub open spec fn postcard_opt_u32_bytes(v: Option<u32>) -> Seq<u8> {
    match v {
        None => seq![0u8],
        Some(x) => seq![1u8].add(varint_bytes(x as nat)),
    }
}

/// What postcard's varint reader takes from the front of some bytes when it
/// may read at most `budget` of them: the value and how many bytes it used.
/// A byte without its top bit ends the number, and the last byte a `u32`
/// allows may carry only four bits; running out of bytes or of budget fails.
pub open spec fn varint_take(bytes: Seq<u8>, budget: nat) -> Option<(nat, nat)>
    decreases budget,
{
    if budget == 0 || bytes.len() == 0 {
        None
    } else if bytes[0] < 128 {
        if budget == 1 && bytes[0] > 15 {
            None
        } else {
            Some((bytes[0] as nat, 1nat))
        }
    } else {
        match varint_take(bytes.drop_first(), (budget - 1) as nat) {
            Some((v, n)) => Some((((bytes[0] - 128) + 128 * v) as nat, n + 1)),
            None => None,
        }
    }
}

/// What `postcard::take_from_bytes::<u32>` reads from the front of some bytes,
/// with the bytes left after it, or `None` where it fails: a varint of at most
/// five bytes.
pub open spec fn postcard_take_u32(bytes: Seq<u8>) -> Option<(u32, Seq<u8>)> {
    match varint_take(bytes, 5) {
        Some((v, n)) => Some((v as u32, bytes.skip(n as int))),
        None => None,
    }
}

/// What `postcard::take_from_bytes::<i32>` reads from the front of some bytes,
/// with the bytes left after it, or `None` where it fails: a varint, unzigzagged.
pub open spec fn postcard_take_i32(bytes: Seq<u8>) -> Option<(i32, Seq<u8>)> {
    match postcard_take_u32(bytes) {
        Some((n, rest)) => Some((unzigzag(n), rest)),
        None => None,
    }
}

/// What `postcard::take_from_bytes::<Option<u32>>` reads from the front of some
/// bytes, with the bytes left after it, or `None` where it fails: a tag byte,
/// `0` for nothing and `1` for a varint to follow; any other tag fails.
pub open spec fn postcard_take_opt_u32(bytes: Seq<u8>) -> Option<(Option<u32>, Seq<u8>)> {
    if bytes.len() == 0 {
        None
    } else if bytes[0] == 0 {
        Some((None, bytes.drop_first()))
    } else if bytes[0] == 1 {
        match postcard_take_u32(bytes.drop_first()) {
            Some((v, rest)) => Some((Some(v), rest)),
            None => None,
        }
    } else {
        None
    }
}

/// The largest value, plus one, that a varint reader with `budget` bytes
/// accepts: sixteen for one byte, and 128 times more for each byte added.
pub open spec fn varint_limit(budget: nat) -> nat
    decreases budget,
{
    if budget <= 1 {
        16
    } else {
        128 * varint_limit((budget - 1) as nat)
    }
}

/// A varint reads back as the value it was written for, using exactly its own
/// bytes, whatever follows it.
pub proof fn lemma_varint_round_trip(v: nat, rest: Seq<u8>, budget: nat)
    requires
        budget >= 1,
        v < varint_limit(budget),
    ensures
        varint_take(varint_bytes(v).add(rest), budget) == Some((v, varint_bytes(v).len())),
    decreases v,
{
    let b = varint_bytes(v).add(rest);
    if v < 128 {
        assert(b[0] == v);
    } else {
        assert(budget >= 2);
        assert(v / 128 < varint_limit((budget - 1) as nat)) by {
            assert(varint_limit(budget) == 128 * varint_limit((budget - 1) as nat));
        }
        lemma_varint_round_trip(v / 128, rest, (budget - 1) as nat);
        assert(b.drop_first() =~= varint_bytes(v / 128).add(rest));
        assert(b[0] == v % 128 + 128);
    }
}

/// A varint cut short, before its last byte, is refused.
pub proof fn lemma_varint_cut_short(v: nat, k: int, budget: nat)
    requires
        0 <= k < varint_bytes(v).len(),
    ensures
        varint_take(varint_bytes(v).take(k), budget) is None,
    decreases v,
{
    let b = varint_bytes(v).take(k);
    if k > 0 && budget > 0 {
        assert(v >= 128);
        assert(b[0] == v % 128 + 128);
        lemma_varint_cut_short(v / 128, k - 1, (budget - 1) as nat);
        assert(b.drop_first() =~= varint_bytes(v / 128).take(k - 1));
    }
}

/// Every `u32` fits the five bytes postcard reads for one.
pub proof fn lemma_u32_fits_a_varint(v: u32)
    ensures
        (v as nat) < varint_limit(5),
{
    reveal_with_fuel(varint_limit, 5);
    assert(varint_limit(5) == 0x1_0000_0000);
}

/// Unzigzagging undoes the zigzag, and every zigzag fits a `u32`.
pub proof fn lemma_zigzag_round_trip(v: i32)
    ensures
        zigzag(v) <= u32::MAX,
        unzigzag(zigzag(v) as u32) == v,
{
}

/// What `take_u32` reads back from the bytes written for `v`, followed by
/// anything, is `v` and exactly what followed.
pub proof fn lemma_take_u32_round_trip(v: u32, rest: Seq<u8>)
    ensures
        postcard_take_u32(postcard_u32_bytes(v).add(rest)) == Some((v, rest)),
{
    lemma_u32_fits_a_varint(v);
    lemma_varint_round_trip(v as nat, rest, 5);
    let b = postcard_u32_bytes(v).add(rest);
    assert(b.skip(varint_bytes(v as nat).len() as int) =~= rest);
}

/// What `take_i32` reads back from the bytes written for `v`, followed by
/// anything, is `v` and exactly what followed.
pub proof fn lemma_take_i32_round_trip(v: i32, rest: Seq<u8>)
    ensures
        postcard_take_i32(postcard_i32_bytes(v).add(rest)) == Some((v, rest)),
{
    lemma_zigzag_round_trip(v);
    lemma_take_u32_round_trip(zigzag(v) as u32, rest);
}

/// What `take_opt_u32` reads back from the bytes written for `v`, followed by
/// anything, is `v` and exactly what followed.
pub proof fn lemma_take_opt_u32_round_trip(v: Option<u32>, rest: Seq<u8>)
    ensures
        postcard_take_opt_u32(postcard_opt_u32_bytes(v).add(rest)) == Some((v, rest)),
{
    let b = postcard_opt_u32_bytes(v).add(rest);
    match v {
        None => {
            assert(b.drop_first() =~= rest);
        },
        Some(x) => {
            lemma_take_u32_round_trip(x, rest);
            assert(b.drop_first() =~= postcard_u32_bytes(x).add(rest));
        },
    }
}

/// The bytes written for a `u32`, an `i32` or an `Option<u32>`, cut short,
/// are refused by the matching take.
pub proof fn lemma_takes_refuse_cut_short(u: u32, i: i32, o: Option<u32>, k: int)
    ensures
        0 <= k < postcard_u32_bytes(u).len() ==> postcard_take_u32(postcard_u32_bytes(u).take(k))
            is None,
        0 <= k < postcard_i32_bytes(i).len() ==> postcard_take_i32(postcard_i32_bytes(i).take(k))
            is None,
        0 <= k < postcard_opt_u32_bytes(o).len() ==> postcard_take_opt_u32(
            postcard_opt_u32_bytes(o).take(k),
        ) is None,
{
    if 0 <= k < postcard_u32_bytes(u).len() {
        lemma_varint_cut_short(u as nat, k, 5);
    }
    if 0 <= k < postcard_i32_bytes(i).len() {
        lemma_varint_cut_short(zigzag(i), k, 5);
    }
    if 0 <= k < postcard_opt_u32_bytes(o).len() && k > 0 {
        let x = o->0;
        lemma_varint_cut_short(x as nat, k - 1, 5);
        assert(postcard_opt_u32_bytes(o).take(k).drop_first() =~= varint_bytes(x as nat).take(k - 1));
    }
}

/// Calls `postcard::to_allocvec` on a `u32`. Claims the bytes are those
/// `postcard_u32_bytes` states. Writing into a growable vector cannot fail in
/// postcard's source, so the error arm is never taken.
#[verifier::external_body]
pub(crate) fn write_u32(v: u32) -> (r: Vec<u8>)
    ensures
        r@ == postcard_u32_bytes(v),
{
    match postcard::to_allocvec(&v) {
        Ok(bytes) => bytes,
        Err(_) => Vec::new(),
    }
}

/// Calls `postcard::to_allocvec` on an `i32`. Claims the bytes are those
/// `postcard_i32_bytes` states; as for `write_u32`, the error arm is never
/// taken.
#[verifier::external_body]
pub(crate) fn write_i32(v: i32) -> (r: Vec<u8>)
    ensures
        r@ == postcard_i32_bytes(v),
{
    match postcard::to_allocvec(&v) {
        Ok(bytes) => bytes,
        Err(_) => Vec::new(),
    }
}

/// Calls `postcard::to_allocvec` on an `Option<u32>`. Claims the bytes are
/// those `postcard_opt_u32_bytes` states; as for `write_u32`, the error arm is
/// never taken.
#[verifier::external_body]
pub(crate) fn write_opt_u32(v: Option<u32>) -> (r: Vec<u8>)
    ensures
        r@ == postcard_opt_u32_bytes(v),
{
    match postcard::to_allocvec(&v) {
        Ok(bytes) => bytes,
        Err(_) => Vec::new(),
    }
}

/// Calls `postcard::take_from_bytes::<u32>`. Claims the result is the reading
/// `postcard_take_u32` states, with the bytes left after it.
#[verifier::external_body]
pub(crate) fn take_u32(bytes: &[u8]) -> (r: Option<(u32, &[u8])>)
    ensures
        postcard_take_u32(bytes@) == (match r {
            Some((v, rest)) => Some((v, rest@)),
            None => None,
        }),
{
    match postcard::take_from_bytes::<u32>(bytes) {
        Ok((v, rest)) => Some((v, rest)),
        Err(_) => None,
    }
}

/// Calls `postcard::take_from_bytes::<i32>`. Claims the result is the reading
/// `postcard_take_i32` states, with the bytes left after it.
#[verifier::external_body]
pub(crate) fn take_i32(bytes: &[u8]) -> (r: Option<(i32, &[u8])>)
    ensures
        postcard_take_i32(bytes@) == (match r {
            Some((v, rest)) => Some((v, rest@)),
            None => None,
        }),
{
    match postcard::take_from_bytes::<i32>(bytes) {
        Ok((v, rest)) => Some((v, rest)),
        Err(_) => None,
    }
}

/// Calls `postcard::take_from_bytes::<Option<u32>>`. Claims the result is the
/// reading `postcard_take_opt_u32` states, with the bytes left after it.
#[verifier::external_body]
pub(crate) fn take_opt_u32(bytes: &[u8]) -> (r: Option<(Option<u32>, &[u8])>)
    ensures
        postcard_take_opt_u32(bytes@) == (match r {
            Some((v, rest)) => Some((v, rest@)),
            None => None,
        }),
{
    match postcard::take_from_bytes::<Option<u32>>(bytes) {
        Ok((v, rest)) => Some((v, rest)),
        Err(_) => None,
    }
}

} // verus!
