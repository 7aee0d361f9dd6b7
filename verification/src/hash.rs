//! SHA-256 content hashes and sets of them.
use std::collections::HashMap;

use sha2::{Digest, Sha256};
use vstd::prelude::*;
use vstd::std_specs::cmp::PartialEqSpecImpl;

use crate::text::{from_chars, text_eq, to_chars};

verus! {

/// The SHA-256 digest of `data`.
pub uninterp spec fn sha256(data: Seq<u8>) -> Seq<u8>;

/// `sha2::Sha256`, the running state of a SHA-256 computation.
#[verifier::external_type_specification]
#[verifier::external_body]
pub struct ExSha256(sha2::Sha256);

/// The bytes that a running SHA-256 computation has taken in so far.
pub uninterp spec fn hashed_input(hasher: Sha256) -> Seq<u8>;

/// `Sha256::new`: a computation that has taken in nothing yet.
#[verifier::external_body]
pub(crate) fn sha256_new() -> (r: Sha256)
    ensures
        hashed_input(r) == Seq::<u8>::empty(),
{
    Sha256::new()
}

/// `Sha256::update`: takes in `data` after what was taken in before.
#[verifier::external_body]
pub(crate) fn sha256_update(hasher: &mut Sha256, data: &[u8])
    ensures
        hashed_input(*final(hasher)) == hashed_input(*old(hasher)) + data@,
{
    Digest::update(hasher, data);
}

/// `Sha256::finalize`: the digest of all that was taken in.
#[verifier::external_body]
pub(crate) fn sha256_finalize(hasher: Sha256) -> (r: [u8; 32])
    ensures
        r@ == sha256(hashed_input(hasher)),
{
    hasher.finalize().into()
}

/// `Sha256::digest`: the SHA-256 digest of `data` in one call, 32 bytes.
#[verifier::external_body]
pub(crate) fn sha256_digest(data: &[u8]) -> (r: [u8; 32])
    ensures
        r@ == sha256(data@),
{
    Sha256::digest(data).into()
}

/// A SHA-256 hash.
#[derive(Clone, Copy, Debug, Hash)]
pub struct Hash {
    bytes: [u8; 32],
}

impl View for Hash {
    type V = Seq<u8>;

    closed spec fn view(&self) -> Seq<u8> {
        self.bytes@
    }
}

impl PartialEqSpecImpl for Hash {
    open spec fn obeys_eq_spec() -> bool {
        true
    }

    open spec fn eq_spec(&self, other: &Self) -> bool {
        self@ == other@
    }
}

impl PartialEq for Hash {
    fn eq(&self, other: &Self) -> (r: bool) {
        let mut i: usize = 0;
        while i < 32
            invariant
                i <= 32,
                forall|j: int| 0 <= j < i ==> self.bytes@[j] == other.bytes@[j],
            decreases 32 - i,
        {
            if self.bytes[i] != other.bytes[i] {
                return false;
            }
            i = i + 1;
        }
        proof {
            assert(self.bytes@ =~= other.bytes@);
        }
        true
    }
}

impl Eq for Hash {

}

/// The lower-case hexadecimal digit of a value below sixteen.
pub open spec fn hex_char(d: int) -> char {
    if d < 10 {
        ('0' as int + d) as char
    } else {
        ('a' as int + (d - 10)) as char
    }
}

/// The lower-case hexadecimal form of `bytes`, two digits for each.
pub open spec fn hex(bytes: Seq<u8>) -> Seq<char> {
    Seq::new(
        bytes.len() * 2,
        |i: int|
            if i % 2 == 0 {
                hex_char((bytes[i / 2] / 16) as int)
            } else {
                hex_char((bytes[i / 2] % 16) as int)
            },
    )
}

fn hex_digit(d: u8) -> (c: char)
    requires
        d < 16,
    ensures
        c == hex_char(d as int),
{
    match d {
        0 => '0',
        1 => '1',
        2 => '2',
        3 => '3',
        4 => '4',
        5 => '5',
        6 => '6',
        7 => '7',
        8 => '8',
        9 => '9',
        10 => 'a',
        11 => 'b',
        12 => 'c',
        13 => 'd',
        14 => 'e',
        _ => 'f',
    }
}

/// The on-wire form of a hash: its type, a colon, and 64 hexadecimal digits.
pub open spec fn typed_base16(hash: Seq<u8>) -> Seq<char> {
    "sha256:"@ + hex(hash)
}

impl Hash {
    /// The hash whose bytes are given.
    pub fn from_digest(bytes: [u8; 32]) -> (r: Hash)
        ensures
            r@ == bytes@,
    {
        Hash { bytes }
    }

    /// Hashes `data`.
    pub fn sha256_from_bytes(data: &[u8]) -> (r: Hash)
        ensures
            r@ == sha256(data@),
    {
        Hash { bytes: sha256_digest(data) }
    }

    /// The 32 bytes of the hash.
    pub fn as_bytes(&self) -> (r: &[u8; 32])
        ensures
            r@ == self@,
    {
        &self.bytes
    }

    /// The on-wire form of the hash, such as `sha256:9f86d081` and 56 more digits.
    pub fn to_typed_base16(&self) -> (r: String)
        ensures
            r@ == typed_base16(self@),
    {
        let mut out = "sha256:".to_owned();
        let mut i: usize = 0;
        proof {
            assert(hex(self@).take(0) =~= Seq::<char>::empty());
            assert(out@ =~= "sha256:"@ + hex(self@).take(0));
        }
        while i < 32
            invariant
                i <= 32,
                out@ == "sha256:"@ + hex(self@).take(2 * i),
            decreases 32 - i,
        {
            let b: u8 = self.bytes[i];
            out.push(hex_digit(b / 16));
            out.push(hex_digit(b % 16));
            proof {
                assert((2 * i) / 2 == i && (2 * i + 1) / 2 == i);
                assert(hex(self@).take(2 * i + 2) =~= hex(self@).take(2 * i).push(
                    hex(self@)[2 * i],
                ).push(hex(self@)[2 * i + 1]));
                assert(out@ =~= "sha256:"@ + hex(self@).take(2 * i + 2));
            }
            i = i + 1;
        }
        proof {
            assert(hex(self@).take(64) =~= hex(self@));
        }
        out
    }
}

/// The value of a hexadecimal digit, in either case; -1 for other characters.
pub open spec fn hex_value(c: char) -> int {
    if '0' <= c <= '9' {
        c as int - '0' as int
    } else if 'a' <= c <= 'f' {
        c as int - 'a' as int + 10
    } else if 'A' <= c <= 'F' {
        c as int - 'A' as int + 10
    } else {
        -1
    }
}

/// The bytes of the hash whose on-wire form is `text`; `None` if it is none.
pub open spec fn parsed_typed_base16(text: Seq<char>) -> Option<Seq<u8>> {
    if text.len() == 71 && text.take(7) == "sha256:"@ && forall|i: int|
        7 <= i < 71 ==> hex_value(#[trigger] text[i]) >= 0 {
        Some(
            Seq::new(
                32,
                |i: int| (16 * hex_value(text[7 + 2 * i]) + hex_value(text[8 + 2 * i])) as u8,
            ),
        )
    } else {
        None
    }
}

fn value_of_hex(c: char) -> (r: Option<u8>)
    ensures
        match r {
            Some(v) => v == hex_value(c) && v < 16,
            None => hex_value(c) < 0,
        },
{
    if '0' <= c && c <= '9' {
        Some((c as u32 - 48) as u8)
    } else if 'a' <= c && c <= 'f' {
        Some((c as u32 - 87) as u8)
    } else if 'A' <= c && c <= 'F' {
        Some((c as u32 - 55) as u8)
    } else {
        None
    }
}

impl Hash {
    /// The hash whose on-wire form is `text`: `sha256:` and 64 hexadecimal digits.
    pub fn from_typed_base16(text: &str) -> (r: Option<Hash>)
        ensures
            match r {
                Some(hash) => parsed_typed_base16(text@) == Some(hash@),
                None => parsed_typed_base16(text@) is None,
            },
    {
        let chars = to_chars(text);
        if chars.len() != 71 {
            return None;
        }
        let prefix = from_chars(&chars, 0, 7);
        proof {
            assert(prefix@ =~= text@.take(7));
        }
        if !text_eq(prefix.as_str(), "sha256:") {
            return None;
        }
        let mut bytes: [u8; 32] = [0;32];
        let mut i: usize = 0;
        while i < 32
            invariant
                i <= 32,
                chars@ == text@,
                chars@.len() == 71,
                forall|k: int| 7 <= k < 7 + 2 * i ==> hex_value(#[trigger] text@[k]) >= 0,
                forall|k: int|
                    0 <= k < i ==> #[trigger] bytes@[k] == (16 * hex_value(text@[7 + 2 * k])
                        + hex_value(text@[8 + 2 * k])) as u8,
            decreases 32 - i,
        {
            match (value_of_hex(chars[7 + 2 * i]), value_of_hex(chars[8 + 2 * i])) {
                (Some(high), Some(low)) => {
                    bytes[i] = high * 16 + low;
                },
                _ => {
                    proof {
                        assert(hex_value(text@[7 + 2 * i]) < 0 || hex_value(text@[8 + 2 * i]) < 0);
                    }
                    return None;
                },
            }
            i = i + 1;
        }
        let r = Hash { bytes };
        proof {
            assert(parsed_typed_base16(text@)->0 =~= r@);
        }
        Some(r)
    }
}

/// Reading the on-wire form of a hash gives the hash back.
pub proof fn law_typed_base16_round_trip(hash: Seq<u8>)
    requires
        hash.len() == 32,
    ensures
        parsed_typed_base16(typed_base16(hash)) == Some(hash),
{
    reveal_strlit("sha256:");
    let text = typed_base16(hash);
    assert(text.take(7) =~= "sha256:"@);
    assert forall|i: int| 7 <= i < 71 implies hex_value(#[trigger] text[i]) >= 0 by {
        assert(text[i] == hex(hash)[i - 7]);
        lemma_hex_value((hash[(i - 7) / 2] / 16) as int);
        lemma_hex_value((hash[(i - 7) / 2] % 16) as int);
    }
    assert forall|i: int| 0 <= i < 32 implies hash[i] == (16 * hex_value(text[7 + 2 * i])
        + hex_value(text[8 + 2 * i])) as u8 by {
        assert((2 * i) / 2 == i && (2 * i) % 2 == 0);
        assert((2 * i + 1) / 2 == i && (2 * i + 1) % 2 == 1);
        assert(text[7 + 2 * i] == hex(hash)[2 * i]);
        assert(text[8 + 2 * i] == hex(hash)[2 * i + 1]);
        lemma_hex_value((hash[i] / 16) as int);
        lemma_hex_value((hash[i] % 16) as int);
    }
    assert(parsed_typed_base16(text)->0 =~= hash);
}

proof fn lemma_hex_value(d: int)
    requires
        0 <= d < 16,
    ensures
        hex_value(hex_char(d)) == d,
{
}

proof fn lemma_hex_char_injective(a: int, b: int)
    requires
        0 <= a < 16,
        0 <= b < 16,
        hex_char(a) == hex_char(b),
    ensures
        a == b,
{
}

/// Two hashes with the same on-wire form are the same hash.
pub proof fn law_typed_base16_is_injective(a: Seq<u8>, b: Seq<u8>)
    requires
        a.len() == b.len(),
        typed_base16(a) == typed_base16(b),
    ensures
        a == b,
{
    let p = "sha256:"@;
    assert forall|i: int| 0 <= i < hex(a).len() implies hex(a)[i] == hex(b)[i] by {
        assert(typed_base16(a)[p.len() + i] == hex(a)[i]);
        assert(typed_base16(b)[p.len() + i] == hex(b)[i]);
    }
    assert forall|i: int| 0 <= i < a.len() implies a[i] == b[i] by {
        assert((2 * i) / 2 == i && (2 * i) % 2 == 0);
        assert((2 * i + 1) / 2 == i && (2 * i + 1) % 2 == 1);
        assert(hex(a)[2 * i] == hex(b)[2 * i]);
        assert(hex(a)[2 * i + 1] == hex(b)[2 * i + 1]);
        lemma_hex_char_injective((a[i] / 16) as int, (b[i] / 16) as int);
        lemma_hex_char_injective((a[i] % 16) as int, (b[i] % 16) as int);
    }
    assert(a =~= b);
}

/// The bucket that a hash falls into.
spec fn bucket(hash: Seq<u8>) -> u64 {
    (hash[0] + hash[1] * 256 + hash[2] * 65536) as u64
}

/// A set of hashes, kept in buckets by their first bytes.
pub struct HashIndex {
    buckets: HashMap<u64, Vec<Hash>>,
}

impl View for HashIndex {
    type V = Set<Seq<u8>>;

    closed spec fn view(&self) -> Set<Seq<u8>> {
        Set::new(
            |h: Seq<u8>|
                self.buckets@.contains_key(bucket(h)) && hashes(self.buckets@[bucket(h)]@).contains(
                    h,
                ),
        )
    }
}

/// The bytes of each hash.
pub open spec fn hashes(list: Seq<Hash>) -> Seq<Seq<u8>> {
    list.map_values(|h: Hash| h@)
}

/// Whether a hash is in a list.
pub fn list_contains(list: &Vec<Hash>, hash: &Hash) -> (r: bool)
    ensures
        r == hashes(list@).contains(hash@),
{
    let mut i: usize = 0;
    while i < list.len()
        invariant
            i <= list.len(),
            forall|j: int| 0 <= j < i ==> hashes(list@)[j] != hash@,
        decreases list.len() - i,
    {
        if list[i] == *hash {
            proof {
                assert(hashes(list@)[i as int] == hash@);
            }
            return true;
        }
        i = i + 1;
    }
    false
}

impl HashIndex {
    /// The empty set.
    pub fn new() -> (r: HashIndex)
        ensures
            r@ == Set::<Seq<u8>>::empty(),
    {
        let r = HashIndex { buckets: HashMap::new() };
        proof {
            assert(r@ =~= Set::<Seq<u8>>::empty());
        }
        r
    }

    fn bucket_of(hash: &Hash) -> (r: u64)
        ensures
            r == bucket(hash@),
    {
        hash.bytes[0] as u64 + hash.bytes[1] as u64 * 256 + hash.bytes[2] as u64 * 65536
    }

    /// Whether the set holds `hash`.
    pub fn contains(&self, hash: &Hash) -> (r: bool)
        ensures
            r == self@.contains(hash@),
    {
        match self.buckets.get(&Self::bucket_of(hash)) {
            Some(list) => list_contains(list, hash),
            None => false,
        }
    }

    /// Adds `hash`; tells whether it was new.
    pub fn insert(&mut self, hash: Hash) -> (r: bool)
        ensures
            r == !old(self)@.contains(hash@),
            final(self)@ == old(self)@.insert(hash@),
    {
        if self.contains(&hash) {
            proof {
                assert(old(self)@.insert(hash@) =~= old(self)@);
            }
            return false;
        }
        let key: u64 = Self::bucket_of(&hash);
        let mut list: Vec<Hash> = match self.buckets.remove(&key) {
            Some(list) => list,
            None => Vec::new(),
        };
        let ghost before = hashes(list@);
        list.push(hash);
        let ghost after = hashes(list@);
        self.buckets.insert(key, list);
        proof {
            assert(after =~= before.push(hash@));
            assert forall|h: Seq<u8>| #[trigger]
                self@.contains(h) == old(self)@.insert(hash@).contains(h) by {
                if bucket(h) == key {
                    assert(after.contains(h) <==> before.contains(h) || h == hash@) by {
                        if before.contains(h) {
                            let i = choose|i: int| 0 <= i < before.len() && before[i] == h;
                            assert(after[i] == h);
                        }
                        assert(after[after.len() - 1] == hash@);
                    }
                }
            }
            assert(self@ =~= old(self)@.insert(hash@));
        }
        true
    }

    /// The set of the hashes in `list`.
    pub fn from_list(list: &Vec<Hash>) -> (r: HashIndex)
        ensures
            forall|h: Seq<u8>| #[trigger] r@.contains(h) == hashes(list@).contains(h),
    {
        let mut set = HashIndex::new();
        let mut i: usize = 0;
        while i < list.len()
            invariant
                i <= list.len(),
                forall|h: Seq<u8>| #[trigger]
                    set@.contains(h) == hashes(list@.take(i as int)).contains(h),
            decreases list.len() - i,
        {
            set.insert(list[i]);
            proof {
                let before = hashes(list@.take(i as int));
                let after = hashes(list@.take(i + 1));
                assert(after =~= before.push(list@[i as int]@));
                assert forall|h: Seq<u8>| #[trigger] set@.contains(h) == after.contains(h) by {
                    if before.contains(h) {
                        let k = choose|k: int| 0 <= k < before.len() && before[k] == h;
                        assert(after[k] == h);
                    }
                    assert(after[i as int] == list@[i as int]@);
                }
            }
            i = i + 1;
        }
        proof {
            assert(list@.take(list@.len() as int) =~= list@);
        }
        set
    }
}

/// The on-wire form of a hash is `sha256:` and, for each byte in order, the digits of its upper and its
/// lower half, in lower case.
pub proof fn law_hashes_are_written_in_lower_case_digits(hash: &Hash, r: String, i: int)
    requires
        call_ensures(Hash::to_typed_base16, (hash,), r),
        hash@.len() == 32,
        0 <= i < 32,
    ensures
        r@.len() == 71,
        "sha256:"@.is_prefix_of(r@),
        r@[7 + 2 * i] == "0123456789abcdef"@[hash@[i] as int / 16],
        r@[8 + 2 * i] == "0123456789abcdef"@[hash@[i] as int % 16],
{
    reveal_strlit("sha256:");
    reveal_strlit("0123456789abcdef");
    let digits = "0123456789abcdef"@;
    assert(r@.subrange(0, 7) =~= "sha256:"@);
    assert((2 * i) / 2 == i && (2 * i) % 2 == 0);
    assert((2 * i + 1) / 2 == i && (2 * i + 1) % 2 == 1);
    assert(r@[7 + 2 * i] == hex(hash@)[2 * i]);
    assert(r@[8 + 2 * i] == hex(hash@)[2 * i + 1]);
    assert(digits[0] == '0' && digits[1] == '1' && digits[2] == '2' && digits[3] == '3');
    assert(digits[4] == '4' && digits[5] == '5' && digits[6] == '6' && digits[7] == '7');
    assert(digits[8] == '8' && digits[9] == '9' && digits[10] == 'a' && digits[11] == 'b');
    assert(digits[12] == 'c' && digits[13] == 'd' && digits[14] == 'e' && digits[15] == 'f');
    lemma_hex_digit(hash@[i] as int / 16);
    lemma_hex_digit(hash@[i] as int % 16);
}

proof fn lemma_hex_digit(d: int)
    requires
        0 <= d < 16,
    ensures
        hex_char(d) == "0123456789abcdef"@[d],
{
    reveal_strlit("0123456789abcdef");
    assert(d == 0 || d == 1 || d == 2 || d == 3 || d == 4 || d == 5 || d == 6 || d == 7 || d == 8
        || d == 9 || d == 10 || d == 11 || d == 12 || d == 13 || d == 14 || d == 15);
}

/// A hash that is written can be read again, and is the same.
pub proof fn law_written_hash_is_read_again(hash: &Hash, text: &str, written: String, r: Option<Hash>)
    requires
        call_ensures(Hash::to_typed_base16, (hash,), written),
        call_ensures(Hash::from_typed_base16, (text,), r),
        text@ == written@,
        hash@.len() == 32,
    ensures
        r matches Some(read) && read@ == hash@,
{
    law_typed_base16_round_trip(hash@);
}

/// Only texts of 71 characters that begin with `sha256:` and go on with hexadecimal digits are hashes,
/// and two texts for the same hash differ in the case of digits at most.
pub proof fn law_only_hexadecimal_texts_are_hashes(text: &str, r: Option<Hash>, i: int)
    requires
        call_ensures(Hash::from_typed_base16, (text,), r),
    ensures
        r is Some ==> text@.len() == 71 && "sha256:"@.is_prefix_of(text@),
        r is Some && 7 <= i < 71 ==> '0' <= text@[i] <= '9' || 'a' <= text@[i] <= 'f' || 'A'
            <= text@[i] <= 'F',
        text@.len() == 71 && "sha256:"@.is_prefix_of(text@) && (forall|k: int|
            7 <= k < 71 ==> '0' <= #[trigger] text@[k] <= '9' || 'a' <= text@[k] <= 'f' || 'A'
                <= text@[k] <= 'F') ==> r is Some,
{
    reveal_strlit("sha256:");
    if text@.len() == 71 {
        assert(text@.take(7) =~= text@.subrange(0, 7));
        if forall|k: int|
            7 <= k < 71 ==> '0' <= #[trigger] text@[k] <= '9' || 'a' <= text@[k] <= 'f' || 'A'
                <= text@[k] <= 'F' {
            assert forall|k: int| 7 <= k < 71 implies hex_value(#[trigger] text@[k]) >= 0 by {}
        }
    }
}

/// A set made from a list holds the hashes of the list, and no others.
pub proof fn law_set_of_hashes_holds_the_listed_ones(list: &Vec<Hash>, r: HashIndex, h: Seq<u8>)
    requires
        call_ensures(HashIndex::from_list, (list,), r),
    ensures
        r@.contains(h) <==> exists|i: int| 0 <= i < list@.len() && (#[trigger] list@[i])@ == h,
{
    if r@.contains(h) {
        let i = choose|i: int| 0 <= i < hashes(list@).len() && hashes(list@)[i] == h;
        assert(list@[i]@ == h);
    }
    if exists|i: int| 0 <= i < list@.len() && (#[trigger] list@[i])@ == h {
        let i = choose|i: int| 0 <= i < list@.len() && (#[trigger] list@[i])@ == h;
        assert(hashes(list@)[i] == h);
    }
}

/// A list and the set made from it hold the same hashes, and a digest is the hash of its bytes.
pub proof fn law_lists_and_sets_agree(
    list: &Vec<Hash>,
    set: &HashIndex,
    hash: &Hash,
    in_list: bool,
    in_set: bool,
    bytes: [u8; 32],
    digest: Hash,
)
    requires
        call_ensures(HashIndex::from_list, (list,), *set),
        call_ensures(list_contains, (list, hash), in_list),
        call_ensures(HashIndex::contains, (set, hash), in_set),
        call_ensures(Hash::from_digest, (bytes,), digest),
    ensures
        in_list == in_set,
        in_set <==> exists|i: int| 0 <= i < list@.len() && (#[trigger] list@[i])@ == hash@,
        digest@ == bytes@,
{
    law_set_of_hashes_holds_the_listed_ones(list, *set, hash@);
}

} // verus!
