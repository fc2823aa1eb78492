use vstd::prelude::*;

use crate::error::TransactionError;
use crate::metric::Counter;
use rand::distributions::Alphanumeric;
use rand::Rng;
use vstd::string::StringSliceAdditionalSpecFns;

verus! {

/// A draw from `low..=high` (rand's `gen_range` on the thread's generator).
#[verifier::external_body]
pub(crate) fn rand_range_inclusive_u64(low: u64, high: u64) -> (r: u64)
    requires
        low <= high,
    ensures
        low <= r <= high,
{
    rand::thread_rng().gen_range(low..=high)
}

/// A draw of an ASCII letter or digit (rand's `Alphanumeric` on the thread's generator).
#[verifier::external_body]
pub(crate) fn rand_alphanumeric() -> (r: u8)
    ensures
        is_alphanumeric(r),
{
    rand::thread_rng().sample(Alphanumeric)
}

/// A draw from `low..high` (rand's `gen_range` on the thread's generator).
#[verifier::external_body]
pub(crate) fn rand_range_usize(low: usize, high: usize) -> (r: usize)
    requires
        low < high,
    ensures
        low <= r < high,
{
    rand::thread_rng().gen_range(low..high)
}

/// A draw that is `true` with chance `numerator / denominator` (rand's `gen_ratio` on the
/// thread's generator): always `true` when the two are equal, never when `numerator` is 0.
#[verifier::external_body]
pub(crate) fn rand_ratio(numerator: u32, denominator: u32) -> (r: bool)
    requires
        0 < denominator,
        numerator <= denominator,
    ensures
        numerator == denominator ==> r,
        numerator == 0 ==> !r,
{
    rand::thread_rng().gen_ratio(numerator, denominator)
}

pub open spec fn is_alphanumeric(b: u8) -> bool {
    (48 <= b <= 57) || (65 <= b <= 90) || (97 <= b <= 122)
}

/// A string of exactly `N` bytes.
#[derive(Debug, Clone, Copy, PartialEq, Eq, Hash)]
pub struct FixedString<const N: usize> {
    data: [u8; N],
}

impl<const N: usize> View for FixedString<N> {
    type V = Seq<u8>;

    closed spec fn view(&self) -> Seq<u8> {
        self.data@
    }
}

impl<const N: usize> FixedString<N> {
    /// The bytes of the string.
    pub fn as_bytes(&self) -> (r: &[u8])
        ensures
            r@ == self@,
    {
        self.data.as_slice()
    }

    /// The string of exactly the bytes `b`.
    pub fn from_bytes(b: &[u8]) -> (r: Self)
        requires
            b@.len() == N,
        ensures
            r@ == b@,
    {
        let mut data = [0u8;N];
        let mut i: usize = 0;
        while i < N
            invariant
                0 <= i <= N,
                b@.len() == N,
                data@.len() == N,
                forall|j: int| 0 <= j < i ==> data@[j] == b@[j],
            decreases N - i,
        {
            data[i] = b[i];
            i += 1;
        }
        let r = Self { data };
        assert(r@ =~= b@);
        r
    }

    pub proof fn lemma_len(&self)
        ensures
            self@.len() == N,
    {
    }

    /// `N` random letters and digits.
    pub fn rand_gen() -> (r: Self)
        ensures
            r@.len() == N,
            forall|i: int| 0 <= i < N ==> is_alphanumeric(#[trigger] r@[i]),
    {
        let mut data = [0u8;N];
        let mut i: usize = 0;
        while i < N
            invariant
                0 <= i <= N,
                data@.len() == N,
                forall|j: int| 0 <= j < i ==> is_alphanumeric(#[trigger] data@[j]),
            decreases N - i,
        {
            data[i] = rand_alphanumeric();
            i += 1;
        }
        Self { data }
    }

    /// Copies the bytes of `src` over those of the string from byte `start` on;
    /// `start + src.len()` must stay below `N`. The other bytes stay as they are.
    pub fn copy_from(&mut self, src: &str, start: usize)
        requires
            start + src.spec_bytes().len() < N,
        ensures
            final(self)@ == old(self)@.subrange(0, start as int) + src.spec_bytes() + old(
                self,
            )@.subrange(start + src.spec_bytes().len(), N as int),
    {
        let bytes = src.as_bytes();
        let mut idx: usize = 0;
        while idx < bytes.len()
            invariant
                0 <= idx <= bytes@.len(),
                bytes@ == src.spec_bytes(),
                start + bytes@.len() < N,
                self.data@.len() == N,
                forall|j: int| 0 <= j < idx ==> self.data@[start + j] == bytes@[j],
                forall|j: int|
                    0 <= j < N && !(start <= j < start + idx) ==> self.data@[j] == old(
                        self,
                    ).data@[j],
            decreases bytes@.len() - idx,
        {
            self.data[start + idx] = bytes[idx];
            idx += 1;
        }
        proof {
            assert(self@ =~= old(self)@.subrange(0, start as int) + src.spec_bytes() + old(
                self,
            )@.subrange(start + src.spec_bytes().len(), N as int));
        }
    }

    pub fn new() -> (r: Self)
        ensures
            r@ == Seq::new(N as nat, |i: int| 0u8),
    {
        let r = Self { data: [0u8;N] };
        proof {
            assert(r@ =~= Seq::new(N as nat, |i: int| 0u8));
        }
        r
    }

    /// Whether the string holds exactly the bytes of `other`.
    pub fn eq_str(&self, other: &str) -> (r: bool)
        ensures
            r == (self@ == other.spec_bytes()),
    {
        let bytes = other.as_bytes();
        if bytes.len() != N {
            return false;
        }
        let mut i: usize = 0;
        while i < N
            invariant
                0 <= i <= N,
                bytes@ == other.spec_bytes(),
                bytes@.len() == N,
                self.data@.len() == N,
                forall|j: int| 0 <= j < i ==> self.data@[j] == bytes@[j],
            decreases N - i,
        {
            if self.data[i] != bytes[i] {
                return false;
            }
            i += 1;
        }
        proof {
            assert(self@ =~= other.spec_bytes());
        }
        true
    }

    /// The first `N` bytes of `s`, which must have that many.
    pub fn from_str(s: &str) -> (r: Result<Self, ()>)
        requires
            s.spec_bytes().len() >= N,
        ensures
            r matches Ok(f) && f@ == s.spec_bytes().subrange(0, N as int),
    {
        let bytes = s.as_bytes();
        let mut data = [0u8;N];
        let mut idx: usize = 0;
        while idx < N
            invariant
                0 <= idx <= N,
                bytes@ == s.spec_bytes(),
                bytes@.len() >= N,
                data@.len() == N,
                forall|j: int| 0 <= j < idx ==> data@[j] == bytes@[j],
            decreases N - idx,
        {
            data[idx] = bytes[idx];
            idx += 1;
        }
        let f = Self { data };
        proof {
            assert(f@ =~= s.spec_bytes().subrange(0, N as int));
        }
        Ok(f)
    }

    /// `first`, then `space` zero bytes, then `second`, then zero bytes up to `N`.
    pub fn concat<const F: usize, const S: usize>(
        first: &FixedString<F>,
        second: &FixedString<S>,
        space: usize,
    ) -> (r: FixedString<N>)
        requires
            F + S + space <= N,
        ensures
            r@ == first@ + Seq::new(space as nat, |i: int| 0u8) + second@ + Seq::new(
                (N - F - S - space) as nat,
                |i: int| 0u8,
            ),
    {
        let mut data = [0u8;N];
        let mut i: usize = 0;
        while i < F
            invariant
                0 <= i <= F,
                F + S + space <= N,
                data@.len() == N,
                first.data@.len() == F,
                forall|j: int| 0 <= j < i ==> data@[j] == first.data@[j],
                forall|j: int| i <= j < N ==> data@[j] == 0,
            decreases F - i,
        {
            data[i] = first.data[i];
            i += 1;
        }
        let mut k: usize = 0;
        while k < S
            invariant
                0 <= k <= S,
                F + S + space <= N,
                data@.len() == N,
                first.data@.len() == F,
                second.data@.len() == S,
                forall|j: int| 0 <= j < F ==> data@[j] == first.data@[j],
                forall|j: int| F <= j < F + space ==> data@[j] == 0,
                forall|j: int| 0 <= j < k ==> data@[F + space + j] == second.data@[j],
                forall|j: int| F + space + k <= j < N ==> data@[j] == 0,
            decreases S - k,
        {
            data[F + space + k] = second.data[k];
            k += 1;
        }
        let r = FixedString { data };
        proof {
            assert(r@ =~= first@ + Seq::new(space as nat, |i: int| 0u8) + second@ + Seq::new(
                (N - F - S - space) as nat,
                |i: int| 0u8,
            ));
        }
        r
    }
}

/// uniform random number generator, as per TPCC 2.1.5
pub fn u_rand(x: u64, y: u64) -> (r: u64)
    requires
        x <= y,
    ensures
        x <= r <= y,
{
    rand_range_inclusive_u64(x, y)
}

/// The non-uniform random number of TPCC 2.1.6 from its draws: `c` is the run's constant for
/// `a`, `r_a` a draw from `0..=a` and `r_xy` a draw from `x..=y`.
pub fn nu_rand_from(a: u64, x: u64, y: u64, c: u64, r_a: u64, r_xy: u64) -> (r: u64)
    requires
        x <= y < 0x1_0000_0000,
        a < 0x1_0000_0000,
        c <= a,
        r_a <= a,
        x <= r_xy <= y,
    ensures
        r == ((r_a | r_xy) + c) % ((y - x + 1) as int) + x,
        x <= r <= y,
{
    assert(r_a | r_xy < 0x1_0000_0000u64) by (bit_vector)
        requires
            r_a < 0x1_0000_0000u64,
            r_xy < 0x1_0000_0000u64,
    ;
    ((r_a | r_xy) + c) % (y - x + 1) + x
}

/// The constants of the non-uniform random numbers of TPCC 2.1.6, one for each `a`, drawn
/// once for a run.
#[derive(Debug, Clone, Copy, PartialEq, Eq, Structural)]
pub struct NuRandConstants {
    pub c_255: u64,
    pub c_1023: u64,
    pub c_8191: u64,
}

impl NuRandConstants {
    pub open spec fn wf(&self) -> bool {
        &&& self.c_255 <= 255
        &&& self.c_1023 <= 1023
        &&& self.c_8191 <= 8191
    }

    /// The constant of `a`.
    pub open spec fn spec_constant(&self, a: u64) -> u64 {
        if a == 255 {
            self.c_255
        } else if a == 1023 {
            self.c_1023
        } else {
            self.c_8191
        }
    }

    /// Each constant drawn from `0..=a`.
    pub fn new() -> (r: Self)
        ensures
            r.wf(),
    {
        NuRandConstants {
            c_255: rand_range_inclusive_u64(0, 255),
            c_1023: rand_range_inclusive_u64(0, 1023),
            c_8191: rand_range_inclusive_u64(0, 8191),
        }
    }

    /// non-uniform random number generator, as per TPCC 2.1.6: `a` must be one of 255, 1023
    /// and 8191.
    pub fn nu_rand(&self, a: u64, x: u64, y: u64) -> (r: u64)
        requires
            self.wf(),
            nu_rand_a_ok(a),
            x <= y < 0x1_0000_0000,
        ensures
            x <= r <= y,
            exists|r_a: u64, r_xy: u64|
                r_a <= a && x <= r_xy <= y && r == ((r_a | r_xy) + self.spec_constant(a)) % ((y
                    - x + 1) as int) + x,
    {
        let c = if a == 255 {
            self.c_255
        } else if a == 1023 {
            self.c_1023
        } else {
            self.c_8191
        };
        let r_a = rand_range_inclusive_u64(0, a);
        let r_xy = rand_range_inclusive_u64(x, y);
        nu_rand_from(a, x, y, c, r_a, r_xy)
    }
}

/// Whether `a` is one of the three TPCC constants.
pub open spec fn nu_rand_a_ok(a: u64) -> bool {
    a == 255 || a == 1023 || a == 8191
}

/// Align the given `size` upwards to alignment `align`.
///
/// Requires that `align` is a power of two.
pub fn align_up(size: usize, align: usize) -> (r: usize)
    requires
        align > 0,
        size + align <= usize::MAX,
    ensures
        r == (size + align - 1) as usize & !((align - 1) as usize),
{
    (size + align - 1) & !(align - 1)
}

/// A random zip code: four random digits followed by 1111, as per TPCC 4.3.2.7.
pub fn zip_gen() -> (r: u64)
    ensures
        exists|d: u64| d <= 9999 && r == (d << 10) + 1111,
{
    let d = rand_range_inclusive_u64(0, 9999);
    assert((d << 10u64) <= 9999u64 * 1024) by (bit_vector)
        requires
            d <= 9999u64,
    ;
    (d << 10) + 1111
}

/// The abort counter that a transaction error is counted under; a missing index entry is
/// not possible with TPCC transactions.
pub fn txn_err_to_counter(e: &TransactionError) -> (r: Counter)
    requires
        *e != TransactionError::IndexNotFound,
    ensures
        *e == TransactionError::LockBusy ==> r == Counter::AbortLockBusy,
        *e == TransactionError::ReadLockBusy ==> r == Counter::AbortRLockBusy,
        *e == TransactionError::WriteLockBusy ==> r == Counter::AbortWLockBusy,
        *e == TransactionError::UpgradeLockBusy ==> r == Counter::AbortUpgradeBusy,
        *e == TransactionError::UserAbort ==> r == Counter::NewOrderRollback,
{
    match e {
        TransactionError::IndexNotFound => {
            proof {
                assert(false);
            }
            Counter::AbortIdxNotFound
        },
        TransactionError::LockBusy => Counter::AbortLockBusy,
        TransactionError::ReadLockBusy => Counter::AbortRLockBusy,
        TransactionError::WriteLockBusy => Counter::AbortWLockBusy,
        TransactionError::UpgradeLockBusy => Counter::AbortUpgradeBusy,
        TransactionError::UserAbort => Counter::NewOrderRollback,
    }
}

/// The bytes of the TPCC last-name syllable for a digit.
pub open spec fn syllable_bytes(d: u32) -> Seq<u8> {
    if d == 0 {
        seq![66u8, 65, 82]
    } else if d == 1 {
        seq![79u8, 85, 71, 72, 84]
    } else if d == 2 {
        seq![65u8, 66, 76, 69]
    } else if d == 3 {
        seq![80u8, 82, 73]
    } else if d == 4 {
        seq![80u8, 82, 69, 83]
    } else if d == 5 {
        seq![69u8, 83, 69]
    } else if d == 6 {
        seq![65u8, 78, 84, 73]
    } else if d == 7 {
        seq![67u8, 65, 76, 76, 89]
    } else if d == 8 {
        seq![65u8, 84, 73, 79, 78]
    } else {
        seq![69u8, 73, 78, 71]
    }
}

/// The string of the last-name syllable for a digit.
fn syllable(d: u32) -> (r: &'static str)
    requires
        d < 10,
    ensures
        r.spec_bytes() == syllable_bytes(d),
{
    broadcast use vstd::string::is_ascii_spec_bytes;

    if d == 0 {
        proof { reveal_strlit("BAR"); vstd::string::is_ascii_spec_bytes("BAR"); assert(vstd::string::is_ascii("BAR")); assert("BAR".spec_bytes() =~= syllable_bytes(d)); }
        "BAR"
    } else if d == 1 {
        proof { reveal_strlit("OUGHT"); vstd::string::is_ascii_spec_bytes("OUGHT"); assert(vstd::string::is_ascii("OUGHT")); assert("OUGHT".spec_bytes() =~= syllable_bytes(d)); }
        "OUGHT"
    } else if d == 2 {
        proof { reveal_strlit("ABLE"); vstd::string::is_ascii_spec_bytes("ABLE"); assert(vstd::string::is_ascii("ABLE")); assert("ABLE".spec_bytes() =~= syllable_bytes(d)); }
        "ABLE"
    } else if d == 3 {
        proof { reveal_strlit("PRI"); vstd::string::is_ascii_spec_bytes("PRI"); assert(vstd::string::is_ascii("PRI")); assert("PRI".spec_bytes() =~= syllable_bytes(d)); }
        "PRI"
    } else if d == 4 {
        proof { reveal_strlit("PRES"); vstd::string::is_ascii_spec_bytes("PRES"); assert(vstd::string::is_ascii("PRES")); assert("PRES".spec_bytes() =~= syllable_bytes(d)); }
        "PRES"
    } else if d == 5 {
        proof { reveal_strlit("ESE"); vstd::string::is_ascii_spec_bytes("ESE"); assert(vstd::string::is_ascii("ESE")); assert("ESE".spec_bytes() =~= syllable_bytes(d)); }
        "ESE"
    } else if d == 6 {
        proof { reveal_strlit("ANTI"); vstd::string::is_ascii_spec_bytes("ANTI"); assert(vstd::string::is_ascii("ANTI")); assert("ANTI".spec_bytes() =~= syllable_bytes(d)); }
        "ANTI"
    } else if d == 7 {
        proof { reveal_strlit("CALLY"); vstd::string::is_ascii_spec_bytes("CALLY"); assert(vstd::string::is_ascii("CALLY")); assert("CALLY".spec_bytes() =~= syllable_bytes(d)); }
        "CALLY"
    } else if d == 8 {
        proof { reveal_strlit("ATION"); vstd::string::is_ascii_spec_bytes("ATION"); assert(vstd::string::is_ascii("ATION")); assert("ATION".spec_bytes() =~= syllable_bytes(d)); }
        "ATION"
    } else {
        proof { reveal_strlit("EING"); vstd::string::is_ascii_spec_bytes("EING"); assert(vstd::string::is_ascii("EING")); assert("EING".spec_bytes() =~= syllable_bytes(d)); }
        "EING"
    }
}

/// The last name of seed `seed`, as per TPCC 4.3.3.1: the syllables of its hundreds, tens
/// and units digits, in that order, then zero bytes up to sixteen.
pub open spec fn last_name_bytes(seed: u32) -> Seq<u8> {
    let name = syllable_bytes((seed / 100) % 10) + syllable_bytes((seed / 10) % 10)
        + syllable_bytes(seed % 10);
    name + Seq::new((16 - name.len()) as nat, |i: int| 0u8)
}

/// A syllable has from three to five bytes.
proof fn lemma_syllable_len(d: u32)
    ensures
        3 <= syllable_bytes(d).len() <= 5,
{
}

/// Generate a last name in customer table as per TPCC 4.3.3.1: the syllables of the
/// hundreds, tens and units digits of the seed, one after the other.
/// The seed must be a three-digit number
pub fn last_name_gen(seed: u32) -> (r: FixedString<16>)
    ensures
        r@ == last_name_bytes(seed),
{
    let digits: [u32; 3] = [(seed / 100) % 10, (seed / 10) % 10, seed % 10];
    let mut last_name: FixedString<16> = FixedString::new();
    let ghost zeros = Seq::new(16, |i: int| 0u8);
    let ghost mut name: Seq<u8> = Seq::empty();
    let mut pos: usize = 0;
    let mut i: usize = 0;
    proof {
        assert(last_name@ =~= name + zeros.subrange(0, 16));
    }
    while i < 3
        invariant
            0 <= i <= 3,
            digits@ == seq![(seed / 100) % 10, (seed / 10) % 10, seed % 10],
            zeros == Seq::new(16, |i: int| 0u8),
            pos == name.len(),
            pos <= 5 * i,
            name == (if i == 0 {
                Seq::empty()
            } else if i == 1 {
                syllable_bytes((seed / 100) % 10)
            } else if i == 2 {
                syllable_bytes((seed / 100) % 10) + syllable_bytes((seed / 10) % 10)
            } else {
                syllable_bytes((seed / 100) % 10) + syllable_bytes((seed / 10) % 10)
                    + syllable_bytes(seed % 10)
            }),
            last_name@ == name + zeros.subrange(pos as int, 16),
        decreases 3 - i,
    {
        let d = digits[i];
        proof {
            lemma_syllable_len(d);
        }
        let syl = syllable(d);
        let len = syl.as_bytes().len();
        let ghost before = last_name@;
        last_name.copy_from(syl, pos);
        proof {
            let name1 = name + syllable_bytes(d);
            assert(last_name@ =~= name1 + zeros.subrange(pos + len, 16));
            name = name1;
        }
        pos = pos + len;
        i += 1;
    }
    proof {
        assert(zeros.subrange(pos as int, 16) =~= Seq::new((16 - name.len()) as nat, |i: int| 0u8));
    }
    last_name
}

} // verus!
