//! Memory and swap totals from `/proc/meminfo` and `/proc/vmstat`.
use crate::fixed::{law_share_in_percent, percent_share, share_percent, Fixed, ONE};
use crate::text::{
    dec, find_line, first_with_prefix, is_digit, last_with_prefix, law_decimal_round_trip,
    law_last_with_prefix, law_prefixes, lemma_plain_digits, lemma_prefix_clash, line_list, lines,
    nth_word, parse_bounded, parse_u64, starts_with, texts, trim, trim_end, trim_start, trimmed,
    without_prefix, word, words,
};
use vstd::prelude::*;

verus! {

/// One reading of the memory totals.
#[derive(Clone, Copy, Debug, PartialEq, Eq, Structural)]
pub struct MemInfo {
    pub available_kb: u64,
    pub total_kb: u64,
    pub swap_free_kb: u64,
    pub swap_total_kb: u64,
}

impl MemInfo {
    /// Free swap is part of the swap, where there is any.
    pub open spec fn valid(self) -> bool {
        self.swap_total_kb == 0 || self.swap_free_kb <= self.swap_total_kb
    }

    /// The used share of swap in percent, in billionths; zero without swap.
    pub open spec fn swap_used(self) -> nat {
        if self.swap_total_kb == 0 {
            0
        } else {
            share_percent(
                (self.swap_total_kb - self.swap_free_kb) as nat,
                self.swap_total_kb as nat,
            )
        }
    }

    /// The used share of swap in percent, rounded down to a billionth.
    pub fn swap_used_pct(&self) -> (r: Fixed)
        requires
            self.valid(),
        ensures
            r.0 == self.swap_used(),
            r.0 <= 100 * ONE,
    {
        if self.swap_total_kb == 0 {
            return Fixed(0);
        }
        percent_share(self.swap_total_kb - self.swap_free_kb, self.swap_total_kb)
    }
}

/// The number that the first word of `s` writes; zero where it writes none.
pub open spec fn kb_value(s: Seq<char>) -> nat {
    match word(s, 0) {
        Some(w) => match parse_bounded(w, u64::MAX as nat) {
            Some(n) => n,
            None => 0,
        },
        None => 0,
    }
}

/// Reads the number that the first word of `s` writes.
pub fn parse_kb(s: &str) -> (r: u64)
    ensures
        r == kb_value(s@),
{
    match nth_word(s, 0) {
        Some(w) => match parse_u64(w.as_str()) {
            Some(n) => n,
            None => 0,
        },
        None => 0,
    }
}

/// The number behind the last line that begins with `p`; zero without one.
pub open spec fn last_kb(ls: Seq<Seq<char>>, p: Seq<char>) -> nat {
    match last_with_prefix(ls, p) {
        Some(l) => kb_value(l.skip(p.len() as int)),
        None => 0,
    }
}

/// Whether `m` holds the four totals of the lines.
pub open spec fn totals_of(m: MemInfo, ls: Seq<Seq<char>>) -> bool {
    &&& m.total_kb == last_kb(ls, "MemTotal:"@)
    &&& m.available_kb == last_kb(ls, "MemAvailable:"@)
    &&& m.swap_total_kb == last_kb(ls, "SwapTotal:"@)
    &&& m.swap_free_kb == last_kb(ls, "SwapFree:"@)
}

proof fn lemma_meminfo_prefixes(l: Seq<char>)
    ensures
        starts_with(l, "MemTotal:"@) ==> !starts_with(l, "MemAvailable:"@) && !starts_with(
            l,
            "SwapTotal:"@,
        ) && !starts_with(l, "SwapFree:"@),
        starts_with(l, "MemAvailable:"@) ==> !starts_with(l, "SwapTotal:"@) && !starts_with(
            l,
            "SwapFree:"@,
        ),
        starts_with(l, "SwapTotal:"@) ==> !starts_with(l, "SwapFree:"@),
{
    reveal_strlit("MemTotal:");
    reveal_strlit("MemAvailable:");
    reveal_strlit("SwapTotal:");
    reveal_strlit("SwapFree:");
    if starts_with(l, "MemTotal:"@) {
        lemma_prefix_clash(l, "MemTotal:"@, "MemAvailable:"@, 3);
        lemma_prefix_clash(l, "MemTotal:"@, "SwapTotal:"@, 0);
        lemma_prefix_clash(l, "MemTotal:"@, "SwapFree:"@, 0);
    }
    if starts_with(l, "MemAvailable:"@) {
        lemma_prefix_clash(l, "MemAvailable:"@, "SwapTotal:"@, 0);
        lemma_prefix_clash(l, "MemAvailable:"@, "SwapFree:"@, 0);
    }
    if starts_with(l, "SwapTotal:"@) {
        lemma_prefix_clash(l, "SwapTotal:"@, "SwapFree:"@, 4);
    }
}

/// Reads the memory totals. `content` is what `/proc/meminfo` holds, `None`
/// where it could not be read: all totals are then zero.
pub fn read_meminfo(content: Option<&str>) -> (r: MemInfo)
    ensures
        totals_of(
            r,
            match content {
                Some(c) => lines(c@),
                None => Seq::empty(),
            },
        ),
{
    let mut m = MemInfo { available_kb: 0, total_kb: 0, swap_free_kb: 0, swap_total_kb: 0 };
    let content = match content {
        Some(c) => c,
        None => return m,
    };
    let ls = line_list(content);
    let ghost all = lines(content@);
    let mut i: usize = 0;
    assert(all.take(0) =~= Seq::<Seq<char>>::empty());
    while i < ls.len()
        invariant
            i <= ls.len(),
            texts(ls@) == all,
            totals_of(m, all.take(i as int)),
        decreases ls.len() - i,
    {
        let line = ls[i].as_str();
        proof {
            assert(texts(ls@)[i as int] == ls@[i as int]@);
            assert(all.take(i as int + 1).drop_last() =~= all.take(i as int));
            lemma_meminfo_prefixes(line@);
        }
        if let Some(v) = without_prefix(line, "MemTotal:") {
            m.total_kb = parse_kb(v.as_str());
        } else if let Some(v) = without_prefix(line, "MemAvailable:") {
            m.available_kb = parse_kb(v.as_str());
        } else if let Some(v) = without_prefix(line, "SwapTotal:") {
            m.swap_total_kb = parse_kb(v.as_str());
        } else if let Some(v) = without_prefix(line, "SwapFree:") {
            m.swap_free_kb = parse_kb(v.as_str());
        }
        i = i + 1;
    }
    assert(all.take(all.len() as int) =~= all);
    m
}

/// The second word, as a number, of the first line that begins with `p`; zero
/// where there is none.
pub open spec fn meminfo_field(ls: Seq<Seq<char>>, p: Seq<char>) -> nat {
    match first_with_prefix(ls, p) {
        Some(l) => match word(l, 1) {
            Some(w) => match parse_bounded(w, u64::MAX as nat) {
                Some(n) => n,
                None => 0,
            },
            None => 0,
        },
        None => 0,
    }
}

fn read_meminfo_field(content: Option<&str>, prefix: &str) -> (r: u64)
    ensures
        r == match content {
            Some(c) => meminfo_field(lines(c@), prefix@),
            None => 0,
        },
{
    match content {
        Some(c) => match find_line(c, prefix) {
            Some(l) => match nth_word(l.as_str(), 1) {
                Some(w) => match parse_u64(w.as_str()) {
                    Some(n) => n,
                    None => 0,
                },
                None => 0,
            },
            None => 0,
        },
        None => 0,
    }
}

/// `MemAvailable` from what `/proc/meminfo` holds; zero where it is not there.
pub fn read_available_kb(content: Option<&str>) -> (r: u64)
    ensures
        r == match content {
            Some(c) => meminfo_field(lines(c@), "MemAvailable:"@),
            None => 0,
        },
{
    read_meminfo_field(content, "MemAvailable:")
}

/// `MemTotal` from what `/proc/meminfo` holds; zero where it is not there.
pub fn read_total_kb(content: Option<&str>) -> (r: u64)
    ensures
        r == match content {
            Some(c) => meminfo_field(lines(c@), "MemTotal:"@),
            None => 0,
        },
{
    read_meminfo_field(content, "MemTotal:")
}

/// The number behind a counter name; zero where it is none.
pub open spec fn counter_value(s: Seq<char>) -> nat {
    match parse_bounded(trim(s), u64::MAX as nat) {
        Some(n) => n,
        None => 0,
    }
}

/// The two counters after one more line.
pub open spec fn swap_step(line: Seq<char>, acc: (nat, nat)) -> (nat, nat) {
    if starts_with(line, "pswpin "@) {
        (counter_value(line.skip("pswpin "@.len() as int)), acc.1)
    } else if starts_with(line, "pswpout "@) {
        (acc.0, counter_value(line.skip("pswpout "@.len() as int)))
    } else {
        acc
    }
}

/// The counters read line by line, up to the line at which both are positive.
pub open spec fn swap_counters(ls: Seq<Seq<char>>, acc: (nat, nat)) -> (nat, nat)
    decreases ls.len(),
{
    if ls.len() == 0 {
        acc
    } else {
        let next = swap_step(ls[0], acc);
        if next.0 > 0 && next.1 > 0 {
            next
        } else {
            swap_counters(ls.drop_first(), next)
        }
    }
}

fn parse_counter(s: &str) -> (r: u64)
    ensures
        r == counter_value(s@),
{
    match parse_u64(trimmed(s).as_str()) {
        Some(n) => n,
        None => 0,
    }
}

/// Reads the cumulative swap-in and swap-out page counters from what
/// `/proc/vmstat` holds. The rate is the caller's difference of two readings.
pub fn parse_vmstat_swap(content: &str) -> (r: (u64, u64))
    ensures
        (r.0 as nat, r.1 as nat) == swap_counters(lines(content@), (0, 0)),
{
    let mut pswpin: u64 = 0;
    let mut pswpout: u64 = 0;
    let ls = line_list(content);
    let ghost all = lines(content@);
    let mut i: usize = 0;
    assert(all.skip(0) =~= all);
    while i < ls.len()
        invariant
            i <= ls.len(),
            texts(ls@) == all,
            all == lines(content@),
            swap_counters(all.skip(i as int), (pswpin as nat, pswpout as nat)) == swap_counters(
                all,
                (0, 0),
            ),
        decreases ls.len() - i,
    {
        let line = ls[i].as_str();
        assert(texts(ls@)[i as int] == ls@[i as int]@);
        assert(all.skip(i as int).drop_first() =~= all.skip(i as int + 1));
        if let Some(v) = without_prefix(line, "pswpin ") {
            pswpin = parse_counter(v.as_str());
        } else if let Some(v) = without_prefix(line, "pswpout ") {
            pswpout = parse_counter(v.as_str());
        }
        if pswpin > 0 && pswpout > 0 {
            return (pswpin, pswpout);
        }
        i = i + 1;
    }
    (pswpin, pswpout)
}

/// A size is the number that stands first in a text.
pub proof fn law_sizes_stand_first(s: Seq<char>, n: nat)
    requires
        words(s).len() > 0,
        words(s)[0] == dec(n),
    ensures
        n <= u64::MAX ==> kb_value(s) == n,
        n > u64::MAX ==> kb_value(s) == 0,
{
    law_decimal_round_trip(n);
}

/// A total is that of the last line with its key.
pub proof fn law_last_line_of_a_key_counts(
    ls: Seq<Seq<char>>,
    key: Seq<char>,
    value: Seq<char>,
    i: int,
)
    requires
        0 <= i < ls.len(),
        ls[i] == key + value,
        forall|j: int, b: Seq<char>| i < j < ls.len() ==> #[trigger] ls[j] != #[trigger] (key + b),
    ensures
        last_kb(ls, key) == kb_value(value),
{
    law_prefixes(value, key);
    assert forall|j: int| i < j < ls.len() implies !starts_with(#[trigger] ls[j], key) by {
        law_prefixes(ls[j], key);
    }
    law_last_with_prefix(ls, key, i);
    assert(ls[i].skip(key.len() as int) =~= value);
}

/// Swap is used by as much as is not free, in percent of all of it.
pub proof fn law_used_swap(m: MemInfo)
    requires
        m.valid(),
    ensures
        m.swap_total_kb == 0 ==> m.swap_used() == 0,
        m.swap_total_kb > 0 ==> m.swap_used() * m.swap_total_kb <= (m.swap_total_kb
            - m.swap_free_kb) * 100_000_000_000 < (m.swap_used() + 1) * m.swap_total_kb,
{
    if m.swap_total_kb > 0 {
        law_share_in_percent((m.swap_total_kb - m.swap_free_kb) as nat, m.swap_total_kb as nat);
    }
}

proof fn lemma_counters_from(ls: Seq<Seq<char>>, acc: (nat, nat), i: int, j: int, a: nat, b: nat)
    requires
        acc.0 == 0 || acc.1 == 0,
        i < 0 ==> acc.0 == a,
        j < 0 ==> acc.1 == b,
        i >= 0 ==> acc.0 == 0,
        j >= 0 ==> acc.1 == 0,
        a > 0,
        b > 0,
        i < ls.len(),
        j < ls.len(),
        i >= 0 || j >= 0,
        forall|k: int|
            0 <= k < ls.len() && k != i ==> !starts_with(#[trigger] ls[k], "pswpin "@),
        forall|k: int|
            0 <= k < ls.len() && k != j ==> !starts_with(#[trigger] ls[k], "pswpout "@),
        i >= 0 ==> starts_with(ls[i], "pswpin "@) && counter_value(
            ls[i].skip("pswpin "@.len() as int),
        ) == a,
        j >= 0 ==> starts_with(ls[j], "pswpout "@) && counter_value(
            ls[j].skip("pswpout "@.len() as int),
        ) == b,
        i != j,
    ensures
        swap_counters(ls, acc) == (a, b),
    decreases ls.len(),
{
    let next = swap_step(ls[0], acc);
    let rest = ls.drop_first();
    assert(ls[0] == ls[0]);
    if i == 0 {
        assert(next == (a, acc.1));
    } else if j == 0 {
        assert(!starts_with(ls[0], "pswpin "@));
        assert(next == (acc.0, b));
    } else {
        assert(!starts_with(ls[0], "pswpin "@));
        assert(!starts_with(ls[0], "pswpout "@));
        assert(next == acc);
    }
    if !(next.0 > 0 && next.1 > 0) {
        assert forall|k: int| 0 <= k < rest.len() && k != i - 1 implies !starts_with(
            #[trigger] rest[k],
            "pswpin "@,
        ) by {
            assert(rest[k] == ls[k + 1]);
        }
        assert forall|k: int| 0 <= k < rest.len() && k != j - 1 implies !starts_with(
            #[trigger] rest[k],
            "pswpout "@,
        ) by {
            assert(rest[k] == ls[k + 1]);
        }
        if i > 0 {
            assert(rest[i - 1] == ls[i]);
        }
        if j > 0 {
            assert(rest[j - 1] == ls[j]);
        }
        lemma_counters_from(
            rest,
            next,
            if i > 0 {
                i - 1
            } else {
                -1
            },
            if j > 0 {
                j - 1
            } else {
                -1
            },
            a,
            b,
        );
    }
}

/// The swap counters are the numbers behind their keys, wherever the two lines
/// stand.
pub proof fn law_swap_counters(ls: Seq<Seq<char>>, i: int, j: int, a: nat, b: nat)
    requires
        0 <= i < ls.len(),
        0 <= j < ls.len(),
        i != j,
        0 < a <= u64::MAX,
        0 < b <= u64::MAX,
        ls[i] == "pswpin "@ + dec(a),
        ls[j] == "pswpout "@ + dec(b),
        forall|k: int|
            0 <= k < ls.len() && k != i ==> !starts_with(#[trigger] ls[k], "pswpin "@),
        forall|k: int|
            0 <= k < ls.len() && k != j ==> !starts_with(#[trigger] ls[k], "pswpout "@),
    ensures
        swap_counters(ls, (0, 0)) == (a, b),
{
    law_prefixes(dec(a), "pswpin "@);
    law_prefixes(dec(b), "pswpout "@);
    assert(ls[i].skip("pswpin "@.len() as int) =~= dec(a));
    assert(ls[j].skip("pswpout "@.len() as int) =~= dec(b));
    lemma_counter(a);
    lemma_counter(b);
    lemma_counters_from(ls, (0, 0), i, j, a, b);
}

proof fn lemma_counter(n: nat)
    requires
        n <= u64::MAX,
    ensures
        counter_value(dec(n)) == n,
{
    law_decimal_round_trip(n);
    lemma_plain_digits(n);
    let s = dec(n);
    assert(is_digit(s[0]) && is_digit(s[s.len() - 1]));
    assert(trim_start(s) == s);
    assert(trim_end(s) == s);
}

// ------------------------------------------------ laws of the functions

/// The share of swap in use is what is not free of all of it.
pub proof fn law_share_of_swap_in_use(m: &MemInfo, r: Fixed)
    requires
        m.valid(),
        call_ensures(MemInfo::swap_used_pct, (m,), r),
    ensures
        m.swap_total_kb == 0 ==> r.0 == 0,
        m.swap_total_kb > 0 ==> r.0 * m.swap_total_kb <= (m.swap_total_kb - m.swap_free_kb)
            * 100_000_000_000 < (r.0 + 1) * m.swap_total_kb,
{
    law_used_swap(*m);
}

/// What is read alone is what is read with the rest, and nothing can be read of
/// nothing.
pub proof fn law_reading_parts_of_the_whole(
    content: Option<&str>,
    all: MemInfo,
    available: u64,
    total: u64,
)
    requires
        call_ensures(read_meminfo, (content,), all),
        call_ensures(read_available_kb, (content,), available),
        call_ensures(read_total_kb, (content,), total),
    ensures
        content matches Some(c) ==> available == meminfo_field(lines(c@), "MemAvailable:"@)
            && total == meminfo_field(lines(c@), "MemTotal:"@),
        content is None ==> available == 0 && total == 0,
        content matches Some(c) ==> totals_of(all, lines(c@)),
{
}

} // verus!
