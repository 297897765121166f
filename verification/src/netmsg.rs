//! Typed network messages and the wire identifiers of types.
use vstd::prelude::*;
use vstd::string::StringSliceAdditionalSpecFns;

verus! {

/// Offset basis of the 64-bit FNV-1a hash.
pub const FNV_OFFSET_BASIS: u64 = 0xcbf29ce484222325;

/// Prime of the 64-bit FNV-1a hash.
pub const FNV_PRIME: u64 = 0x100000001b3;

/// One FNV-1a round: exclusive-or the byte in, then multiply modulo 2^64.
pub open spec fn fnv1a_round(hash: u64, byte: u8) -> u64 {
    ((hash ^ (byte as u64)) * FNV_PRIME % 0x1_0000_0000_0000_0000) as u64
}

/// The 64-bit FNV-1a hash of a byte string.
pub open spec fn fnv1a(bytes: Seq<u8>) -> u64
    decreases bytes.len(),
{
    if bytes.len() == 0 {
        FNV_OFFSET_BASIS
    } else {
        fnv1a_round(fnv1a(bytes.drop_last()), bytes.last())
    }
}

/// FNV-1a hash used to derive wire identifiers from type paths.
pub fn hash_type_path(type_path: &str) -> (hash: u64)
    ensures
        hash == fnv1a(type_path.spec_bytes()),
{
    let bytes = type_path.as_bytes();
    let mut hash: u64 = FNV_OFFSET_BASIS;
    let mut index: usize = 0;
    assert(bytes@.take(0) =~= Seq::<u8>::empty());
    while index < bytes.len()
        invariant
            index <= bytes@.len(),
            hash == fnv1a(bytes@.take(index as int)),
        decreases bytes@.len() - index,
    {
        assert(bytes@.take(index + 1).drop_last() =~= bytes@.take(index as int));
        hash = hash ^ (bytes[index] as u64);
        hash = hash.wrapping_mul(FNV_PRIME);
        index = index + 1;
    }
    assert(bytes@.take(index as int) =~= bytes@);
    hash
}

/// A type whose values travel in serialised form.
pub trait WireType: Sized {
    /// Fully qualified type path used to produce a stable wire identifier.
    const TYPE_PATH: &'static str;

    /// Stable wire identifier derived from `TYPE_PATH`.
    fn wire_id() -> (id: u64)
        ensures
            id == fnv1a(Self::TYPE_PATH.spec_bytes()),
    {
        hash_type_path(Self::TYPE_PATH)
    }

    /// Serialises a value.
    fn encode(&self) -> (bytes: Vec<u8>);

    /// Reads a value back from its serialised form, `None` when the bytes are
    /// not one.
    fn decode(bytes: &[u8]) -> (value: Option<Self>);
}

/// Trait implemented by typed network messages.
pub trait NetMessage: WireType {

}

/// The wire identifier of a type.
pub open spec fn wire_id_of<T: WireType>() -> u64 {
    fnv1a(T::TYPE_PATH.spec_bytes())
}

/// Whether encoding `value` can give `bytes`.
pub open spec fn encodes_to<T: WireType>(value: &T, bytes: Seq<u8>) -> bool {
    exists|encoded: Vec<u8>| #[trigger]
        call_ensures(T::encode, (value,), encoded) && encoded@ == bytes
}

/// Whether decoding `bytes` can give `outcome`.
pub open spec fn decodes_to<T: WireType>(bytes: Seq<u8>, outcome: Option<T>) -> bool {
    exists|slice: &[u8]| #[trigger]
        call_ensures(T::decode, (slice,), outcome) && slice@ == bytes
}

/// Multiplying by the prime modulo 2^64 can be undone.
proof fn lemma_prime_product_injective(left: u64, right: u64)
    requires
        left * FNV_PRIME % 0x1_0000_0000_0000_0000 == right * FNV_PRIME
            % 0x1_0000_0000_0000_0000,
    ensures
        left == right,
{
    let modulus: int = 0x1_0000_0000_0000_0000;
    let inverse: int = 0xce965057aff6957b;
    let excess: int = 887285111055;
    let prime = FNV_PRIME as int;
    let gap = left - right;
    let quotient = left * prime / modulus - right * prime / modulus;
    assert(prime * inverse == 1 + excess * modulus);
    vstd::arithmetic::div_mod::lemma_fundamental_div_mod(left * prime, modulus);
    vstd::arithmetic::div_mod::lemma_fundamental_div_mod(right * prime, modulus);
    assert(gap * prime == modulus * quotient) by (nonlinear_arith)
        requires
            gap == left - right,
            quotient == left * prime / modulus - right * prime / modulus,
            left * prime == modulus * (left * prime / modulus) + left * prime % modulus,
            right * prime == modulus * (right * prime / modulus) + right * prime % modulus,
            left * prime % modulus == right * prime % modulus,
    ;
    let multiple = quotient * inverse - gap * excess;
    assert(gap == modulus * multiple) by (nonlinear_arith)
        requires
            gap * prime == modulus * quotient,
            prime * inverse == 1 + excess * modulus,
            multiple == quotient * inverse - gap * excess,
    ;
    assert(multiple == 0) by (nonlinear_arith)
        requires
            gap == modulus * multiple,
            -modulus < gap < modulus,
            modulus == 0x1_0000_0000_0000_0000,
    ;
}

/// A round tells its inputs apart.
proof fn lemma_round_injective(hash: u64, other_hash: u64, byte: u8, other_byte: u8)
    ensures
        hash != other_hash ==> fnv1a_round(hash, byte) != fnv1a_round(other_hash, byte),
        byte != other_byte ==> fnv1a_round(hash, byte) != fnv1a_round(hash, other_byte),
{
    let wide = byte as u64;
    let other_wide = other_byte as u64;
    assert(hash != other_hash ==> hash ^ wide != other_hash ^ wide) by (bit_vector);
    assert(wide != other_wide ==> hash ^ wide != hash ^ other_wide) by (bit_vector);
    if fnv1a_round(hash, byte) == fnv1a_round(other_hash, byte) {
        lemma_prime_product_injective(hash ^ wide, other_hash ^ wide);
    }
    if fnv1a_round(hash, byte) == fnv1a_round(hash, other_byte) {
        lemma_prime_product_injective(hash ^ wide, hash ^ other_wide);
    }
}

/// Changing one byte of a type path changes its hash.
pub proof fn law_one_changed_byte_changes_the_hash(left: Seq<u8>, right: Seq<u8>, place: int)
    requires
        left.len() == right.len(),
        0 <= place < left.len(),
        left[place] != right[place],
        forall|i: int| 0 <= i < left.len() && i != place ==> left[i] == right[i],
    ensures
        fnv1a(left) != fnv1a(right),
    decreases left.len(),
{
    let left_rest = left.drop_last();
    let right_rest = right.drop_last();
    if place == left.len() - 1 {
        assert(left_rest =~= right_rest);
    } else {
        law_one_changed_byte_changes_the_hash(left_rest, right_rest, place);
        assert(left.last() == right.last());
    }
    lemma_round_injective(fnv1a(left_rest), fnv1a(right_rest), left.last(), right.last());
}

/// The hash of nothing is the offset basis, and each further byte is
/// exclusive-ored in and multiplied with the prime modulo 2^64.
pub proof fn law_hash_takes_in_one_byte_after_the_other(bytes: Seq<u8>, byte: u8)
    ensures
        fnv1a(Seq::<u8>::empty()) == 0xcbf29ce484222325,
        fnv1a(bytes.push(byte)) as int == (fnv1a(bytes) ^ (byte as u64)) * 0x100000001b3
            % 0x1_0000_0000_0000_0000,
{
    assert(bytes.push(byte).drop_last() =~= bytes);
}

/// A type's wire identifier is the hash of its type path.
pub proof fn law_wire_id_is_the_hash_of_the_path<T: WireType>()
    ensures
        wire_id_of::<T>() == fnv1a(T::TYPE_PATH.spec_bytes()),
{
}

/// The serialised forms of a value are what its type's encoder may give, and
/// bytes are read as what its decoder may give.
pub proof fn law_forms_come_from_the_type<T: WireType>(
    value: &T,
    encoded: Vec<u8>,
    slice: &[u8],
    outcome: Option<T>,
)
    ensures
        call_ensures(T::encode, (value,), encoded) ==> encodes_to(value, encoded@),
        call_ensures(T::decode, (slice,), outcome) ==> decodes_to::<T>(slice@, outcome),
        forall|bytes: Seq<u8>| #[trigger]
            encodes_to(value, bytes) ==> exists|form: Vec<u8>| #[trigger]
                call_ensures(T::encode, (value,), form) && form@ == bytes,
        forall|bytes: Seq<u8>| #[trigger]
            decodes_to::<T>(bytes, outcome) ==> exists|form: &[u8]| #[trigger]
                call_ensures(T::decode, (form,), outcome) && form@ == bytes,
{
}

} // verus!
