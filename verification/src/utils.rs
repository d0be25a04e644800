use vstd::prelude::*;
use std::collections::HashSet;
use std::time::{Duration, Instant};
use rand::rngs::ThreadRng;
use rand::seq::SliceRandom;

verus! {

broadcast use vstd::std_specs::hash::group_hash_axioms;

/// Characters that short random identifiers are made of.
pub const ID_CHARS: [char; 62] = [
    'A', 'Z', 'E', 'R', 'T', 'Y', 'U', 'I', 'O', 'P', 'Q', 'S', 'D', 'F', 'G', 'H', 'J', 'K', 'L',
    'M', 'W', 'X', 'C', 'V', 'B', 'N', 'a', 'z', 'e', 'r', 't', 'y', 'u', 'i', 'o', 'p', 'q', 's',
    'd', 'f', 'g', 'h', 'j', 'k', 'l', 'm', 'w', 'x', 'c', 'v', 'b', 'n', '0', '1', '2', '3', '4',
    '5', '6', '7', '8', '9',
];

/// Length of a short random identifier.
pub const ID_SIZE: usize = 5;

/// Raw value of an identifier.
pub type IdValue = u64;

/// Typed identifier: a 64-bit value tagged with the kind of object it names.
pub struct Id<T> {
    pub value: IdValue,
    pub phantom: core::marker::PhantomData<T>,
}

impl<T> Id<T> {
    /// Identifier holding `value`.
    pub fn new(value: IdValue) -> (r: Self)
        ensures
            r.value == value,
    {
        Id { value, phantom: core::marker::PhantomData }
    }
}

impl<T> Clone for Id<T> {
    fn clone(&self) -> (r: Self)
        ensures
            r.value == self.value,
    {
        Self::new(self.value)
    }
}

impl<T> Copy for Id<T> {
}

impl<T> PartialEq for Id<T> {
    fn eq(&self, other: &Self) -> (r: bool) {
        self.value == other.value
    }
}

impl<T> vstd::std_specs::cmp::PartialEqSpecImpl for Id<T> {
    open spec fn obeys_eq_spec() -> bool {
        true
    }

    open spec fn eq_spec(&self, other: &Self) -> bool {
        self.value == other.value
    }
}

impl<T> Eq for Id<T> {
}

impl<T> core::hash::Hash for Id<T> {
    /// Hashes the identifier's value, as `u64::hash` does.
    #[verifier::external_body]
    fn hash<H: core::hash::Hasher>(&self, state: &mut H) {
        self.value.hash(state);
    }
}

#[verifier::external_type_specification]
#[verifier::external_body]
pub struct ExThreadRng(rand::rngs::ThreadRng);

#[verifier::external_type_specification]
#[verifier::external_body]
pub struct ExInstant(std::time::Instant);

pub assume_specification[ String::with_capacity ](capacity: usize) -> (r: String)
    ensures
        r@ == Seq::<char>::empty(),
;

pub assume_specification[ String::push ](s: &mut String, ch: char)
    ensures
        final(s)@ == old(s)@.push(ch),
;

/// Calls `rand::random::<u64>()`: a value drawn from the thread-local
/// generator; nothing is promised of it.
#[verifier::external_body]
fn random_u64() -> u64 {
    rand::random::<u64>()
}

/// Calls `rand::thread_rng()`: a handle on the thread-local generator.
#[verifier::external_body]
fn thread_rng() -> ThreadRng {
    rand::thread_rng()
}

/// Calls `SliceRandom::choose` on `chars`: `None` exactly when `chars` is
/// empty, otherwise one of its elements (which one is left to chance).
#[verifier::external_body]
fn choose_char(chars: &[char], rng: &mut ThreadRng) -> (r: Option<char>)
    ensures
        r is None <==> chars@.len() == 0,
        r matches Some(c) ==> chars@.contains(c),
{
    chars.choose(rng).copied()
}

/// Calls `Instant::now()`.
#[verifier::external_body]
fn instant_now() -> Instant {
    Instant::now()
}

/// Calls `Instant::elapsed()`: the time gone by since `start`.
#[verifier::external_body]
fn instant_elapsed(start: &Instant) -> Duration {
    start.elapsed()
}

/// A fresh identifier with a random value.
pub fn rand_id<T>() -> (r: Id<T>) {
    Id::new(random_u64())
}

/// A short random name: `ID_SIZE` characters drawn from `ID_CHARS`.
pub fn rand_id_unsafe() -> (s: String)
    ensures
        s@.len() == ID_SIZE,
        forall|i: int| 0 <= i < s@.len() ==> ID_CHARS@.contains(#[trigger] s@[i]),
{
    let mut rng = thread_rng();
    let mut s = String::with_capacity(ID_SIZE);
    let mut n: usize = 0;
    while n < ID_SIZE
        invariant
            0 <= n <= ID_SIZE,
            s@.len() == n,
            forall|i: int| 0 <= i < s@.len() ==> ID_CHARS@.contains(#[trigger] s@[i]),
        decreases ID_SIZE - n,
    {
        let chars: &[char] = &ID_CHARS;
        match choose_char(chars, &mut rng) {
            Some(c) => {
                s.push(c);
            },
            None => {
                assert(false);
            },
        }
        n = n + 1;
    }
    s
}

/// Takes an element out of a non-empty set.
pub fn pop_set<T: Copy + Eq + std::hash::Hash>(set: &mut HashSet<T>) -> (r: T)
    requires
        vstd::std_specs::hash::obeys_key_model::<T>(),
        old(set)@.len() > 0,
    ensures
        old(set)@.contains(r),
        final(set)@ == old(set)@.remove(r),
{
    let mut first: Option<T> = None;
    let ghost keys = set@;
    for x in iter: set.iter()
        invariant_except_break
            first is None,
            iter.index() == 0,
        invariant
            keys == set@,
            keys.len() > 0,
            iter.seq().unref().to_set() == keys,
            iter.seq().len() == keys.len(),
        ensures
            first matches Some(v) && keys.contains(v),
    {
        assert(iter.seq().unref()[0] == *x);
        first = Some(*x);
        break;
    }
    let elt = first.unwrap();
    set.remove(&elt);
    elt
}

/// Runs `f` once and answers how long it took, as the clock measured it.
pub fn time<F, K>(f: F) -> (d: Duration)
    where
        F: FnOnce() -> K,
    requires
        f.requires(()),
    ensures
        exists|k: K| #[trigger] f.ensures((), k),
{
    let start = instant_now();
    let k = f();
    assert(f.ensures((), k));
    instant_elapsed(&start)
}

/// Character of the base-62 digit `d`: `0`-`9`, then `A`-`Z`, then `a`-`z`.
pub open spec fn base62_char(d: nat) -> char {
    if d < 10 {
        (48 + d) as char
    } else if d < 36 {
        (65 + d - 10) as char
    } else {
        (97 + d - 36) as char
    }
}

/// The number that `bytes` write in base 256, most significant byte first.
pub open spec fn big_endian_value(bytes: Seq<u8>) -> nat
    decreases bytes.len(),
{
    if bytes.len() == 0 {
        0
    } else {
        big_endian_value(bytes.drop_last()) * 256 + bytes.last() as nat
    }
}

/// The base-62 digits of `n`, least significant digit first.
pub open spec fn base62_digits(n: nat) -> Seq<char>
    decreases n,
{
    if n == 0 {
        Seq::empty()
    } else {
        seq![base62_char(n % 62)] + base62_digits(n / 62)
    }
}

/// The base-62 text of `bytes` as the `base_62` crate documents it: the
/// bytes, with a byte 1 put in front, are read as a big-endian number, and
/// the remainders of its repeated division by 62 each give a character.
pub open spec fn base62_encoding(bytes: Seq<u8>) -> Seq<char> {
    if bytes.len() == 0 {
        Seq::empty()
    } else {
        base62_digits(big_endian_value(seq![1u8] + bytes))
    }
}

/// Calls `base_62::encode`, whose documentation describes the text as
/// `base62_encoding` states it.
#[verifier::external_body]
fn base62_encode(bytes: &[u8]) -> (r: String)
    ensures
        r@ == base62_encoding(bytes@),
{
    base_62::encode(bytes)
}

/// Where the last piece of `s` starts when `s` is cut at each `::`, read
/// from left to right: the scan is at `i` and the current piece began at
/// `start`.
pub open spec fn last_piece_start(s: Seq<char>, i: int, start: int) -> int
    decreases s.len() - i,
{
    if i + 2 > s.len() {
        start
    } else if s[i] == ':' && s[i + 1] == ':' {
        last_piece_start(s, i + 2, i + 2)
    } else {
        last_piece_start(s, i + 1, start)
    }
}

/// The last of the pieces of `s` cut at each `::`, as `str::split("::")`
/// gives them.
pub open spec fn last_piece(s: Seq<char>) -> Seq<char> {
    s.subrange(last_piece_start(s, 0, 0), s.len() as int)
}

impl<T> Id<T> {
    /// The identifier as text: the last `::`-separated piece of
    /// `kind_name` (the `Debug` rendering of the type's name, closing quote
    /// included) without its last character, a `#`, and the base-62 text
    /// of the value's little-endian bytes.
    pub fn fmt(&self, kind_name: &str) -> (r: String)
        requires
            last_piece(kind_name@).len() > 0,
            (last_piece(kind_name@).last() as int) < 128,
        ensures
            r@ == last_piece(kind_name@).drop_last() + seq!['#'] + base62_encoding(
                vstd::bytes::spec_u64_to_le_bytes(self.value),
            ),
    {
        let n = kind_name.unicode_len();
        let mut i: usize = 0;
        let mut start: usize = 0;
        while 2 <= n - i
            invariant
                n == kind_name@.len(),
                0 <= start <= i <= n,
                last_piece_start(kind_name@, i as int, start as int) == last_piece_start(
                    kind_name@,
                    0,
                    0,
                ),
            decreases n - i,
        {
            if kind_name.get_char(i) == ':' && kind_name.get_char(i + 1) == ':' {
                i = i + 2;
                start = i;
            } else {
                i = i + 1;
            }
        }
        let piece = kind_name.substring_char(start, n);
        let name = piece.substring_char(0, n - start - 1);
        let mut r = name.to_owned();
        r.push('#');
        let bytes = vstd::bytes::u64_to_le_bytes(self.value);
        let code = base62_encode(bytes.as_slice());
        r.append(code.as_str());
        proof {
            assert(name@ =~= last_piece(kind_name@).drop_last());
        }
        r
    }
}

} // verus!
