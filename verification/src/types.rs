//! Unit newtypes shared by every part of the daemon.
use vstd::prelude::*;

verus! {

/// Identity of a process. Not a number: it has no arithmetic.
#[derive(Clone, Copy, Debug, PartialEq, Eq, PartialOrd, Ord, Hash, Structural)]
pub struct Pid(pub u32);

/// A memory size in kibibytes, the one unit that is stored. Megabytes and
/// bytes exist only as conversions.
#[derive(Clone, Copy, Debug, PartialEq, Eq, PartialOrd, Ord, Hash, Structural)]
pub struct Kb(pub u64);

/// `n / 1024` rounded to the nearest whole number, ties to the even one.
pub open spec fn round_mb(n: nat) -> nat {
    let whole = n / 1024;
    let rest = n % 1024;
    if rest > 512 || (rest == 512 && whole % 2 == 1) {
        whole + 1
    } else {
        whole
    }
}

/// The sum of a sequence of sizes, as a number of kibibytes.
pub open spec fn total_kb(sizes: Seq<Kb>) -> nat
    decreases sizes.len(),
{
    if sizes.len() == 0 {
        0
    } else {
        total_kb(sizes.drop_last()) + sizes.last().0 as nat
    }
}

impl Kb {
    /// The size in megabytes, rounded to the nearest (ties to even), as the
    /// status lines print it.
    pub fn mb_rounded(self) -> (r: u64)
        ensures
            r == round_mb(self.0 as nat),
    {
        let whole: u64 = self.0 / 1024;
        let rest: u64 = self.0 % 1024;
        if rest > 512 || (rest == 512 && whole % 2 == 1) {
            whole + 1
        } else {
            whole
        }
    }

    /// The size in bytes.
    pub fn bytes(self) -> (r: u64)
        requires
            self.0 * 1024 <= u64::MAX,
        ensures
            r == self.0 * 1024,
    {
        self.0 * 1024
    }

    /// The sum, held at the largest representable size.
    pub fn saturating_add(self, rhs: Kb) -> (r: Kb)
        ensures
            r.0 == if self.0 + rhs.0 > u64::MAX { u64::MAX as int } else { self.0 + rhs.0 },
    {
        Kb(self.0.saturating_add(rhs.0))
    }

    /// The difference, held at zero.
    pub fn saturating_sub(self, rhs: Kb) -> (r: Kb)
        ensures
            r.0 == if self.0 < rhs.0 { 0 } else { self.0 - rhs.0 },
    {
        Kb(self.0.saturating_sub(rhs.0))
    }

    /// The sum of all `sizes`.
    pub fn sum(sizes: &[Kb]) -> (r: Kb)
        requires
            total_kb(sizes@) <= u64::MAX,
        ensures
            r.0 == total_kb(sizes@),
    {
        let mut acc: u64 = 0;
        let mut i: usize = 0;
        while i < sizes.len()
            invariant
                i <= sizes.len(),
                total_kb(sizes@) <= u64::MAX,
                acc == total_kb(sizes@.take(i as int)),
            decreases sizes.len() - i,
        {
            proof {
                let next = sizes@.take(i as int + 1);
                assert(next.drop_last() =~= sizes@.take(i as int));
                lemma_total_kb_prefix(sizes@, i as int + 1);
            }
            acc = acc + sizes[i].0;
            i = i + 1;
        }
        assert(sizes@.take(i as int) =~= sizes@);
        Kb(acc)
    }
}

/// A prefix never sums to more than the whole.
pub proof fn lemma_total_kb_prefix(sizes: Seq<Kb>, n: int)
    requires
        0 <= n <= sizes.len(),
    ensures
        total_kb(sizes.take(n)) <= total_kb(sizes),
    decreases sizes.len(),
{
    if n < sizes.len() {
        lemma_total_kb_prefix(sizes.drop_last(), n);
        assert(sizes.drop_last().take(n) =~= sizes.take(n));
    } else {
        assert(sizes.take(n) =~= sizes);
    }
}

impl core::ops::Add for Kb {
    type Output = Kb;

    fn add(self, rhs: Kb) -> (r: Kb) {
        Kb(self.0 + rhs.0)
    }
}

impl vstd::std_specs::ops::AddSpecImpl for Kb {
    open spec fn obeys_add_spec() -> bool {
        true
    }

    open spec fn add_req(self, rhs: Kb) -> bool {
        self.0 + rhs.0 <= u64::MAX
    }

    open spec fn add_spec(self, rhs: Kb) -> Kb {
        Kb((self.0 + rhs.0) as u64)
    }
}

impl core::ops::Sub for Kb {
    type Output = Kb;

    fn sub(self, rhs: Kb) -> (r: Kb) {
        Kb(self.0 - rhs.0)
    }
}

impl vstd::std_specs::ops::SubSpecImpl for Kb {
    open spec fn obeys_sub_spec() -> bool {
        true
    }

    open spec fn sub_req(self, rhs: Kb) -> bool {
        rhs.0 <= self.0
    }

    open spec fn sub_spec(self, rhs: Kb) -> Kb {
        Kb((self.0 - rhs.0) as u64)
    }
}

/// Kilobytes are rounded to the nearest megabyte, and to the even one of two.
pub proof fn law_megabytes_are_rounded(n: nat)
    ensures
        -512 <= round_mb(n) * 1024 - n <= 512,
        round_mb(n) * 1024 - n == 512 || n - round_mb(n) * 1024 == 512 ==> round_mb(n) % 2 == 0,
{
}

/// Sizes add up.
pub proof fn law_sizes_add_up(sizes: Seq<Kb>, one: Kb)
    ensures
        total_kb(Seq::empty()) == 0,
        total_kb(sizes.push(one)) == total_kb(sizes) + one.0,
{
    assert(sizes.push(one).drop_last() =~= sizes);
}

// ------------------------------------------------ laws of the functions

/// Sizes are added and taken away without going past the ends, and what is taken away
/// can be added again.
pub proof fn law_adding_and_taking_away(a: Kb, b: Kb, sum: Kb, less: Kb)
    requires
        call_ensures(Kb::saturating_add, (a, b), sum),
        call_ensures(Kb::saturating_sub, (a, b), less),
    ensures
        a.0 + b.0 <= u64::MAX ==> sum.0 == a.0 + b.0,
        a.0 + b.0 > u64::MAX ==> sum.0 == u64::MAX,
        b.0 <= a.0 ==> less.0 + b.0 == a.0,
        b.0 > a.0 ==> less.0 == 0,
{
}

/// A kilobyte is 1024 bytes, and megabytes are rounded to the nearest.
pub proof fn law_units_of_sizes(a: Kb, mb: u64, bytes: u64)
    requires
        call_ensures(Kb::mb_rounded, (a,), mb),
        call_ensures(Kb::bytes, (a,), bytes),
    ensures
        bytes == 1024 * a.0,
        -512 <= mb * 1024 - a.0 <= 512,
{
    law_megabytes_are_rounded(a.0 as nat);
}

} // verus!
