//! Text as sequences of characters: the line, word and number shapes that the
//! kernel's files, the control socket and the configuration are written in.
use vstd::prelude::*;

verus! {

/// `String::push` appends one character at the end.
pub assume_specification[ std::string::String::push ](s: &mut std::string::String, c: char)
    ensures
        final(s)@ == old(s)@.push(c),
;

/// What `str::to_lowercase` makes of a text.
pub uninterp spec fn lowercase(s: Seq<char>) -> Seq<char>;

/// Calls `str::to_lowercase`. The result depends on the text alone.
#[verifier::external_body]
pub(crate) fn to_lowercase(s: &str) -> (r: String)
    ensures
        r@ == lowercase(s@),
{
    s.to_lowercase()
}

/// What `str::to_uppercase` makes of a text.
pub uninterp spec fn uppercase(s: Seq<char>) -> Seq<char>;

/// Calls `str::to_uppercase`. The result depends on the text alone.
#[verifier::external_body]
pub(crate) fn to_uppercase(s: &str) -> (r: String)
    ensures
        r@ == uppercase(s@),
{
    s.to_uppercase()
}

/// Unicode's White_Space property.
pub open spec fn is_space(c: char) -> bool {
    let n = c as u32;
    ||| 0x9 <= n <= 0xd
    ||| n == 0x20
    ||| n == 0x85
    ||| n == 0xa0
    ||| n == 0x1680
    ||| 0x2000 <= n <= 0x200a
    ||| n == 0x2028
    ||| n == 0x2029
    ||| n == 0x202f
    ||| n == 0x205f
    ||| n == 0x3000
}

/// Whether `c` is white space.
pub fn space_char(c: char) -> (r: bool)
    ensures
        r == is_space(c),
{
    let n: u32 = c as u32;
    (0x9 <= n && n <= 0xd) || n == 0x20 || n == 0x85 || n == 0xa0 || n == 0x1680
        || (0x2000 <= n && n <= 0x200a) || n == 0x2028 || n == 0x2029 || n == 0x202f
        || n == 0x205f || n == 0x3000
}

/// Where `c` first stands in `s`; the length of `s` where it does not.
pub open spec fn index_of(s: Seq<char>, c: char) -> nat
    decreases s.len(),
{
    if s.len() == 0 || s[0] == c {
        0
    } else {
        1 + index_of(s.drop_first(), c)
    }
}

/// How many characters of `s` stand before its first white space.
pub open spec fn word_len(s: Seq<char>) -> nat
    decreases s.len(),
{
    if s.len() == 0 || is_space(s[0]) {
        0
    } else {
        1 + word_len(s.drop_first())
    }
}

/// The maximal runs of characters other than white space, in order.
pub open spec fn words(s: Seq<char>) -> Seq<Seq<char>>
    decreases s.len(),
{
    if s.len() == 0 {
        Seq::empty()
    } else if is_space(s[0]) {
        words(s.drop_first())
    } else if word_len(s) >= s.len() {
        seq![s]
    } else {
        seq![s.take(word_len(s) as int)] + words(s.skip(word_len(s) as int + 1))
    }
}

/// The pieces of `s` between occurrences of `c`; one more than there are
/// occurrences.
pub open spec fn split(s: Seq<char>, c: char) -> Seq<Seq<char>>
    decreases s.len(),
{
    let n = index_of(s, c) as int;
    if n >= s.len() {
        seq![s]
    } else {
        seq![s.take(n)] + split(s.skip(n + 1), c)
    }
}

/// `s` without one carriage return at its end.
pub open spec fn strip_cr(s: Seq<char>) -> Seq<char> {
    if s.len() > 0 && s.last() == '\r' {
        s.drop_last()
    } else {
        s
    }
}

/// The lines of `s`: each ends in a newline, or a carriage return and a
/// newline, which are not part of it; the last may end with the text.
pub open spec fn lines(s: Seq<char>) -> Seq<Seq<char>>
    decreases s.len(),
{
    let n = index_of(s, '\n') as int;
    if s.len() == 0 {
        Seq::empty()
    } else if n >= s.len() {
        seq![s]
    } else {
        seq![strip_cr(s.take(n))] + lines(s.skip(n + 1))
    }
}

/// `s` from its first character that is not white space on.
pub open spec fn trim_start(s: Seq<char>) -> Seq<char>
    decreases s.len(),
{
    if s.len() > 0 && is_space(s[0]) {
        trim_start(s.drop_first())
    } else {
        s
    }
}

/// `s` up to its last character that is not white space.
pub open spec fn trim_end(s: Seq<char>) -> Seq<char>
    decreases s.len(),
{
    if s.len() > 0 && is_space(s.last()) {
        trim_end(s.drop_last())
    } else {
        s
    }
}

/// `s` without the white space at its two ends.
pub open spec fn trim(s: Seq<char>) -> Seq<char> {
    trim_end(trim_start(s))
}

/// Whether `s` begins with `p`.
pub open spec fn starts_with(s: Seq<char>, p: Seq<char>) -> bool {
    p.len() <= s.len() && s.take(p.len() as int) == p
}

/// Whether `s` ends with `p`.
pub open spec fn ends_with(s: Seq<char>, p: Seq<char>) -> bool {
    p.len() <= s.len() && s.skip(s.len() - p.len()) == p
}

/// Whether `p` stands in `s` at position `i`.
pub open spec fn occurs_at(s: Seq<char>, p: Seq<char>, i: int) -> bool {
    0 <= i && i + p.len() <= s.len() && s.subrange(i, i + p.len()) == p
}

/// Whether `p` stands anywhere in `s`.
pub open spec fn contains(s: Seq<char>, p: Seq<char>) -> bool {
    exists|i: int| occurs_at(s, p, i)
}

/// The texts of a sequence of strings.
pub open spec fn texts(v: Seq<String>) -> Seq<Seq<char>> {
    v.map_values(|s: String| s@)
}

/// The decimal digit `d`.
pub open spec fn digit(d: nat) -> char {
    ('0' as u32 + d) as char
}

/// `n` in decimal, without leading zeros.
pub open spec fn dec(n: nat) -> Seq<char>
    decreases n,
{
    if n < 10 {
        seq![digit(n)]
    } else {
        dec(n / 10).push(digit(n % 10))
    }
}

/// `n` in decimal, with a minus sign where it is negative.
pub open spec fn dec_int(n: int) -> Seq<char> {
    if n < 0 {
        seq!['-'] + dec((-n) as nat)
    } else {
        dec(n as nat)
    }
}

/// Whether `c` is one of the ten ASCII digits.
pub open spec fn is_digit(c: char) -> bool {
    '0' as u32 <= c as u32 <= '9' as u32
}

/// The value of a digit.
pub open spec fn digit_value(c: char) -> nat {
    (c as u32 - '0' as u32) as nat
}

/// Whether `s` is a non-empty run of digits.
pub open spec fn all_digits(s: Seq<char>) -> bool {
    s.len() > 0 && forall|i: int| 0 <= i < s.len() ==> is_digit(#[trigger] s[i])
}

/// The number that a run of digits writes.
pub open spec fn digits_value(s: Seq<char>) -> nat
    decreases s.len(),
{
    if s.len() == 0 {
        0
    } else {
        digits_value(s.drop_last()) * 10 + digit_value(s.last())
    }
}

/// The number that `s` writes: digits, with an optional plus sign before them.
pub open spec fn parse_nat(s: Seq<char>) -> Option<nat> {
    let body = if s.len() > 0 && s[0] == '+' {
        s.drop_first()
    } else {
        s
    };
    if all_digits(body) {
        Some(digits_value(body))
    } else {
        None
    }
}

/// The number that `s` writes, where it is at most `max`.
pub open spec fn parse_bounded(s: Seq<char>, max: nat) -> Option<nat> {
    match parse_nat(s) {
        Some(v) if v <= max => Some(v),
        _ => None,
    }
}

/// The number that `s` writes: digits, with an optional sign before them.
pub open spec fn parse_int(s: Seq<char>) -> Option<int> {
    if s.len() > 0 && s[0] == '-' {
        if all_digits(s.drop_first()) {
            Some(-(digits_value(s.drop_first()) as int))
        } else {
            None
        }
    } else {
        match parse_nat(s) {
            Some(v) => Some(v as int),
            None => None,
        }
    }
}

/// `c` as a lower-case letter, where it is one of the 26 ASCII capitals.
pub open spec fn lower_char(c: char) -> char {
    if 'A' as u32 <= c as u32 <= 'Z' as u32 {
        (c as u32 + 32) as char
    } else {
        c
    }
}

/// `s` with its ASCII capitals in lower case.
pub open spec fn ascii_lower(s: Seq<char>) -> Seq<char> {
    s.map_values(|c: char| lower_char(c))
}

/// `parts` joined by `sep`.
pub open spec fn join(parts: Seq<Seq<char>>, sep: Seq<char>) -> Seq<char>
    decreases parts.len(),
{
    if parts.len() == 0 {
        Seq::empty()
    } else if parts.len() == 1 {
        parts[0]
    } else {
        join(parts.drop_last(), sep) + sep + parts.last()
    }
}

/// The `n`th word of `s`, counted from zero.
pub open spec fn word(s: Seq<char>, n: nat) -> Option<Seq<char>> {
    if n < words(s).len() {
        Some(words(s)[n as int])
    } else {
        None
    }
}

/// The first of the lines that begins with `p`.
pub open spec fn first_with_prefix(ls: Seq<Seq<char>>, p: Seq<char>) -> Option<Seq<char>>
    decreases ls.len(),
{
    if ls.len() == 0 {
        None
    } else if starts_with(ls[0], p) {
        Some(ls[0])
    } else {
        first_with_prefix(ls.drop_first(), p)
    }
}

/// The last of the lines that begins with `p`.
pub open spec fn last_with_prefix(ls: Seq<Seq<char>>, p: Seq<char>) -> Option<Seq<char>>
    decreases ls.len(),
{
    if ls.len() == 0 {
        None
    } else if starts_with(ls.last(), p) {
        Some(ls.last())
    } else {
        last_with_prefix(ls.drop_last(), p)
    }
}

// ---------------------------------------------------------------- lemmas

/// A line found by its prefix begins with it.
pub proof fn lemma_first_with_prefix(ls: Seq<Seq<char>>, p: Seq<char>)
    ensures
        first_with_prefix(ls, p) matches Some(l) ==> starts_with(l, p),
    decreases ls.len(),
{
    if ls.len() > 0 {
        lemma_first_with_prefix(ls.drop_first(), p);
    }
}

/// One text cannot begin with two that differ at a position both have.
pub proof fn lemma_prefix_clash(s: Seq<char>, p: Seq<char>, q: Seq<char>, k: int)
    requires
        starts_with(s, p),
        0 <= k < p.len(),
        k < q.len(),
        p[k] != q[k],
    ensures
        !starts_with(s, q),
{
    assert(s.take(p.len() as int)[k] == s[k]);
    if starts_with(s, q) {
        assert(s.take(q.len() as int)[k] == s[k]);
    }
}

pub proof fn lemma_index_of(s: Seq<char>, c: char, n: int)
    requires
        0 <= n <= s.len(),
        forall|i: int| 0 <= i < n ==> s[i] != c,
        n < s.len() ==> s[n] == c,
    ensures
        index_of(s, c) == n,
    decreases s.len(),
{
    if n > 0 {
        lemma_index_of(s.drop_first(), c, n - 1);
    }
}

proof fn lemma_word_len(s: Seq<char>, n: int)
    requires
        0 <= n <= s.len(),
        forall|i: int| 0 <= i < n ==> !is_space(s[i]),
        n < s.len() ==> is_space(s[n]),
    ensures
        word_len(s) == n,
    decreases s.len(),
{
    if n > 0 {
        lemma_word_len(s.drop_first(), n - 1);
    }
}

/// The decimal text of a number is its digits.
pub proof fn lemma_dec_digits(n: nat)
    ensures
        all_digits(dec(n)),
        digits_value(dec(n)) == n,
    decreases n,
{
    if n < 10 {
        reveal_with_fuel(digits_value, 2);
        assert(dec(n).drop_last() =~= Seq::<char>::empty());
    } else {
        lemma_dec_digits(n / 10);
        assert(dec(n).drop_last() =~= dec(n / 10));
    }
}

/// Reading back the decimal text of a number gives the number.
pub proof fn law_decimal_round_trip(n: nat)
    ensures
        parse_nat(dec(n)) == Some(n),
        parse_int(dec(n)) == Some(n as int),
        dec(n).len() > 0,
{
    lemma_dec_digits(n);
    assert(is_digit(dec(n)[0]));
}

// ------------------------------------------------------------ functions

/// The characters of `s`.
pub fn chars(s: &str) -> (r: Vec<char>)
    ensures
        r@ == s@,
{
    let mut out: Vec<char> = Vec::new();
    for c in it: s.chars()
        invariant
            out@ == s@.take(it.index() as int),
            it.seq() == s@,
    {
        proof {
            assert(s@.take(it.index() as int + 1) =~= s@.take(it.index() as int).push(c));
        }
        out.push(c);
    }
    assert(s@.take(s@.len() as int) =~= s@);
    out
}

/// The text of a sequence of characters.
pub fn string_of(cs: &[char]) -> (r: String)
    ensures
        r@ == cs@,
{
    let mut out = String::new();
    let mut i: usize = 0;
    while i < cs.len()
        invariant
            i <= cs.len(),
            out@ == cs@.take(i as int),
        decreases cs.len() - i,
    {
        assert(cs@.take(i as int + 1) =~= cs@.take(i as int).push(cs@[i as int]));
        out.push(cs[i]);
        i = i + 1;
    }
    assert(cs@.take(i as int) =~= cs@);
    out
}

/// `s` with its ASCII capitals in lower case.
pub fn lower_string(s: &str) -> (r: String)
    ensures
        r@ == ascii_lower(s@),
{
    let cs = chars(s);
    let mut out = String::new();
    let mut i: usize = 0;
    while i < cs.len()
        invariant
            i <= cs.len(),
            cs@ == s@,
            out@ == ascii_lower(s@.take(i as int)),
        decreases cs.len() - i,
    {
        let n: u32 = cs[i] as u32;
        let c: char = if 65 <= n && n <= 90 {
            (n as u8 + 32) as char
        } else {
            cs[i]
        };
        assert(ascii_lower(s@.take(i as int + 1)) =~= ascii_lower(s@.take(i as int)).push(c));
        out.push(c);
        i = i + 1;
    }
    assert(s@.take(i as int) =~= s@);
    out
}

/// The strings of `parts` from the front, `n` of them, joined by `sep`.
pub fn join_strings(parts: &Vec<String>, n: usize, sep: &str) -> (r: String)
    requires
        n <= parts.len(),
    ensures
        r@ == join(texts(parts@).take(n as int), sep@),
{
    let mut out = String::new();
    let mut i: usize = 0;
    assert(texts(parts@).take(0) =~= Seq::<Seq<char>>::empty());
    while i < n
        invariant
            i <= n <= parts.len(),
            out@ == join(texts(parts@).take(i as int), sep@),
        decreases n - i,
    {
        proof {
            let next = texts(parts@).take(i as int + 1);
            assert(next.drop_last() =~= texts(parts@).take(i as int));
        }
        if i > 0 {
            out.append(sep);
        }
        out.append(parts[i].as_str());
        proof {
            if i == 0 {
                assert(out@ =~= parts@[0]@);
            }
        }
        i = i + 1;
    }
    out
}

/// Whether two texts are the same.
pub fn same(a: &str, b: &str) -> (r: bool)
    ensures
        r == (a@ == b@),
{
    a.to_owned() == b.to_owned()
}

/// The characters of `cs` from `from` up to `to`, as a text.
pub fn slice_string(cs: &Vec<char>, from: usize, to: usize) -> (r: String)
    requires
        from <= to <= cs.len(),
    ensures
        r@ == cs@.subrange(from as int, to as int),
{
    let mut out = String::new();
    let mut i: usize = from;
    while i < to
        invariant
            from <= i <= to <= cs.len(),
            out@ == cs@.subrange(from as int, i as int),
        decreases to - i,
    {
        assert(cs@.subrange(from as int, i as int + 1) =~= cs@.subrange(from as int, i as int).push(
            cs@[i as int],
        ));
        out.push(cs[i]);
        i = i + 1;
    }
    out
}

/// The decimal text of `n`.
pub fn dec_string(n: u64) -> (r: String)
    ensures
        r@ == dec(n as nat),
    decreases n,
{
    let d: u8 = (n % 10) as u8;
    let mut out = if n < 10 {
        String::new()
    } else {
        dec_string(n / 10)
    };
    out.push((48u8 + d) as char);
    assert(n < 10 ==> out@ =~= seq![digit(n as nat)]);
    out
}

/// The decimal text of `n`, with a minus sign where it is negative.
pub fn int_string(n: i32) -> (r: String)
    ensures
        r@ == dec_int(n as int),
{
    if n >= 0 {
        return dec_string(n as u64);
    }
    let mut out = String::new();
    out.push('-');
    let magnitude: i64 = -(n as i64);
    out.append(dec_string(magnitude as u64).as_str());
    assert(out@ =~= seq!['-'] + dec((-n) as nat));
    out
}

/// `n` spaces.
pub open spec fn spaces(n: nat) -> Seq<char> {
    Seq::new(n, |i: int| ' ')
}

/// `s`, filled up with spaces behind it to `width` characters.
pub open spec fn padded(s: Seq<char>, width: nat) -> Seq<char> {
    if s.len() >= width {
        s
    } else {
        s + spaces((width - s.len()) as nat)
    }
}

/// `s`, filled up with spaces before it to `width` characters.
pub open spec fn indented(s: Seq<char>, width: nat) -> Seq<char> {
    if s.len() >= width {
        s
    } else {
        spaces((width - s.len()) as nat) + s
    }
}

/// `s`, filled up with spaces behind it.
pub fn pad(s: &str, width: usize) -> (r: String)
    ensures
        r@ == padded(s@, width as nat),
{
    let mut out = s.to_owned();
    let mut n: usize = s.unicode_len();
    if n >= width {
        return out;
    }
    assert(out@ =~= s@ + spaces(0));
    while n < width
        invariant
            s@.len() <= n <= width,
            out@ == s@ + spaces((n - s@.len()) as nat),
        decreases width - n,
    {
        out.push(' ');
        assert(out@ =~= s@ + spaces((n + 1 - s@.len()) as nat));
        n = n + 1;
    }
    out
}

/// `s`, filled up with spaces before it.
pub fn indent(s: &str, width: usize) -> (r: String)
    ensures
        r@ == indented(s@, width as nat),
{
    let mut out = String::new();
    let mut n: usize = s.unicode_len();
    assert(out@ =~= spaces(0));
    while n < width
        invariant
            s@.len() <= n,
            n <= width || n == s@.len(),
            out@ == spaces((n - s@.len()) as nat),
        decreases width - n,
    {
        out.push(' ');
        assert(out@ =~= spaces((n + 1 - s@.len()) as nat));
        n = n + 1;
    }
    out.append(s);
    assert(s@.len() >= width ==> out@ =~= s@);
    out
}

/// Whether, in words.
pub open spec fn yes_no(b: bool) -> Seq<char> {
    if b {
        "true"@
    } else {
        "false"@
    }
}

/// Whether, in words.
pub fn bool_text(b: bool) -> (r: &'static str)
    ensures
        r@ == yes_no(b),
{
    if b {
        "true"
    } else {
        "false"
    }
}

/// The lines of `s`.
pub fn line_list(s: &str) -> (r: Vec<String>)
    ensures
        texts(r@) == lines(s@),
{
    let cs = chars(s);
    let mut out: Vec<String> = Vec::new();
    let mut start: usize = 0;
    let mut i: usize = 0;
    assert(cs@.skip(0) =~= cs@);
    assert(texts(out@) + lines(cs@.skip(0)) =~= lines(cs@));
    while i < cs.len()
        invariant
            start <= i <= cs.len(),
            forall|k: int| start <= k < i ==> cs@[k] != '\n',
            texts(out@) + lines(cs@.skip(start as int)) == lines(cs@),
        decreases cs.len() - i,
    {
        if cs[i] == '\n' {
            let mut end: usize = i;
            if start < i && cs[i - 1] == '\r' {
                end = i - 1;
            }
            let piece = slice_string(&cs, start, end);
            proof {
                let rest = cs@.skip(start as int);
                lemma_index_of(rest, '\n', i - start);
                assert(rest.skip(i - start + 1) =~= cs@.skip(i + 1));
                assert(strip_cr(rest.take(i - start)) =~= piece@);
                assert(texts(out@.push(piece)) =~= texts(out@).push(piece@));
                assert(texts(out@).push(piece@) + lines(cs@.skip(i + 1)) =~= texts(out@) + (
                seq![piece@] + lines(cs@.skip(i + 1))));
            }
            out.push(piece);
            start = i + 1;
        }
        i = i + 1;
    }
    let ghost rest = cs@.skip(start as int);
    proof {
        lemma_index_of(rest, '\n', rest.len() as int);
    }
    if start < cs.len() {
        let piece = slice_string(&cs, start, cs.len());
        proof {
            assert(piece@ =~= rest);
            assert(texts(out@.push(piece)) =~= texts(out@) + seq![piece@]);
        }
        out.push(piece);
    } else {
        assert(texts(out@) + lines(rest) =~= texts(out@));
    }
    out
}

/// The words of `s`.
pub fn word_list(s: &str) -> (r: Vec<String>)
    ensures
        texts(r@) == words(s@),
{
    let cs = chars(s);
    let mut out: Vec<String> = Vec::new();
    let mut start: usize = 0;
    let mut i: usize = 0;
    assert(cs@.skip(0) =~= cs@);
    assert(texts(out@) + words(cs@.skip(0)) =~= words(cs@));
    while i < cs.len()
        invariant
            start <= i <= cs.len(),
            forall|k: int| start <= k < i ==> !is_space(cs@[k]),
            texts(out@) + words(cs@.skip(start as int)) == words(cs@),
        decreases cs.len() - i,
    {
        if space_char(cs[i]) {
            let ghost rest = cs@.skip(start as int);
            if start < i {
                let piece = slice_string(&cs, start, i);
                proof {
                    lemma_word_len(rest, i - start);
                    assert(rest.skip(i - start + 1) =~= cs@.skip(i + 1));
                    assert(rest.take(i - start) =~= piece@);
                    assert(texts(out@.push(piece)) =~= texts(out@).push(piece@));
                    assert(texts(out@).push(piece@) + words(cs@.skip(i + 1)) =~= texts(out@) + (
                    seq![piece@] + words(cs@.skip(i + 1))));
                }
                out.push(piece);
            } else {
                assert(rest.drop_first() =~= cs@.skip(i + 1));
            }
            start = i + 1;
        }
        i = i + 1;
    }
    let ghost rest = cs@.skip(start as int);
    proof {
        lemma_word_len(rest, rest.len() as int);
    }
    if start < cs.len() {
        let piece = slice_string(&cs, start, cs.len());
        proof {
            assert(piece@ =~= rest);
            assert(texts(out@.push(piece)) =~= texts(out@) + seq![piece@]);
        }
        out.push(piece);
    } else {
        assert(texts(out@) + words(rest) =~= texts(out@));
    }
    out
}

/// The pieces of `s` between occurrences of `c`.
pub fn split_list(s: &str, c: char) -> (r: Vec<String>)
    ensures
        texts(r@) == split(s@, c),
{
    let cs = chars(s);
    let mut out: Vec<String> = Vec::new();
    let mut start: usize = 0;
    let mut i: usize = 0;
    assert(cs@.skip(0) =~= cs@);
    assert(texts(out@) + split(cs@.skip(0), c) =~= split(cs@, c));
    while i < cs.len()
        invariant
            start <= i <= cs.len(),
            forall|k: int| start <= k < i ==> cs@[k] != c,
            texts(out@) + split(cs@.skip(start as int), c) == split(cs@, c),
        decreases cs.len() - i,
    {
        if cs[i] == c {
            let piece = slice_string(&cs, start, i);
            proof {
                let rest = cs@.skip(start as int);
                lemma_index_of(rest, c, i - start);
                assert(rest.skip(i - start + 1) =~= cs@.skip(i + 1));
                assert(rest.take(i - start) =~= piece@);
                assert(texts(out@.push(piece)) =~= texts(out@).push(piece@));
                assert(texts(out@).push(piece@) + split(cs@.skip(i + 1), c) =~= texts(out@) + (
                seq![piece@] + split(cs@.skip(i + 1), c)));
            }
            out.push(piece);
            start = i + 1;
        }
        i = i + 1;
    }
    let piece = slice_string(&cs, start, cs.len());
    proof {
        let rest = cs@.skip(start as int);
        lemma_index_of(rest, c, rest.len() as int);
        assert(piece@ =~= rest);
        assert(texts(out@.push(piece)) =~= texts(out@) + seq![piece@]);
    }
    out.push(piece);
    out
}

/// Where `c` first stands in `s`; the number of its characters where it does
/// not.
pub fn find_char(s: &str, c: char) -> (r: usize)
    ensures
        r == index_of(s@, c),
        r <= s@.len(),
{
    let cs = chars(s);
    let mut i: usize = 0;
    while i < cs.len() && cs[i] != c
        invariant
            i <= cs.len(),
            forall|k: int| 0 <= k < i ==> cs@[k] != c,
        decreases cs.len() - i,
    {
        i = i + 1;
    }
    proof {
        lemma_index_of(s@, c, i as int);
    }
    i
}

/// `s` without the white space at its two ends.
pub fn trimmed(s: &str) -> (r: String)
    ensures
        r@ == trim(s@),
{
    let cs = chars(s);
    let mut a: usize = 0;
    let mut b: usize = cs.len();
    assert(cs@.skip(0) =~= cs@);
    while a < b && space_char(cs[a])
        invariant
            a <= b == cs.len(),
            trim_start(cs@.skip(a as int)) == trim_start(cs@),
        decreases b - a,
    {
        assert(cs@.skip(a as int).drop_first() =~= cs@.skip(a as int + 1));
        a = a + 1;
    }
    let ghost head = cs@.skip(a as int);
    assert(trim_start(cs@) == head);
    assert(cs@.subrange(a as int, b as int) =~= head);
    while a < b && space_char(cs[b - 1])
        invariant
            a <= b <= cs.len(),
            trim_end(cs@.subrange(a as int, b as int)) == trim_end(head),
        decreases b,
    {
        assert(cs@.subrange(a as int, b as int).drop_last() =~= cs@.subrange(
            a as int,
            b as int - 1,
        ));
        b = b - 1;
    }
    slice_string(&cs, a, b)
}

/// Whether `s` begins with `p`.
pub fn has_prefix(s: &str, p: &str) -> (r: bool)
    ensures
        r == starts_with(s@, p@),
{
    let n = p.unicode_len();
    if s.unicode_len() < n {
        return false;
    }
    assert(s@.subrange(0, n as int) =~= s@.take(n as int));
    same(s.substring_char(0, n), p)
}

/// Whether `s` ends with `p`.
pub fn has_suffix(s: &str, p: &str) -> (r: bool)
    ensures
        r == ends_with(s@, p@),
{
    let n = p.unicode_len();
    let m = s.unicode_len();
    if m < n {
        return false;
    }
    assert(s@.subrange(m - n, m as int) =~= s@.skip(m - n));
    same(s.substring_char(m - n, m), p)
}

/// `s` without the prefix `p`, where it has it.
pub fn without_prefix(s: &str, p: &str) -> (r: Option<String>)
    ensures
        match r {
            Some(t) => starts_with(s@, p@) && t@ == s@.skip(p@.len() as int),
            None => !starts_with(s@, p@),
        },
{
    if has_prefix(s, p) {
        let n = p.unicode_len();
        let m = s.unicode_len();
        assert(s@.subrange(n as int, m as int) =~= s@.skip(n as int));
        Some(s.substring_char(n, m).to_owned())
    } else {
        None
    }
}

/// `s` without the suffix `p`, where it has it.
pub fn without_suffix(s: &str, p: &str) -> (r: Option<String>)
    ensures
        match r {
            Some(t) => ends_with(s@, p@) && t@ == s@.take(s@.len() - p@.len()),
            None => !ends_with(s@, p@),
        },
{
    if has_suffix(s, p) {
        let n = p.unicode_len();
        let m = s.unicode_len();
        assert(s@.subrange(0, m - n) =~= s@.take(m - n));
        Some(s.substring_char(0, m - n).to_owned())
    } else {
        None
    }
}

/// Whether `p` stands anywhere in `s`.
pub fn has_part(s: &str, p: &str) -> (r: bool)
    ensures
        r == contains(s@, p@),
{
    let cs = chars(s);
    let ps = chars(p);
    if ps.len() > cs.len() {
        return false;
    }
    let mut i: usize = 0;
    while i <= cs.len() - ps.len()
        invariant
            ps@ == p@,
            cs@ == s@,
            ps.len() <= cs.len(),
            i <= cs.len() - ps.len() + 1,
            forall|k: int| 0 <= k < i ==> !#[trigger] occurs_at(s@, p@, k),
        decreases cs.len() - i + 1,
    {
        let mut j: usize = 0;
        while j < ps.len() && cs[i + j] == ps[j]
            invariant
                ps@ == p@,
                cs@ == s@,
                i + ps.len() <= cs.len(),
                j <= ps.len(),
                forall|k: int| 0 <= k < j ==> cs@[i + k] == #[trigger] ps@[k],
            decreases ps.len() - j,
        {
            j = j + 1;
        }
        if j == ps.len() {
            assert(s@.subrange(i as int, i + p@.len()) =~= p@);
            assert(occurs_at(s@, p@, i as int));
            return true;
        }
        assert(!occurs_at(s@, p@, i as int)) by {
            assert(s@.subrange(i as int, i + p@.len())[j as int] == cs@[i + j]);
        }
        i = i + 1;
    }
    assert(!contains(s@, p@));
    false
}

/// The `n`th word of `s`, counted from zero.
pub fn nth_word(s: &str, n: usize) -> (r: Option<String>)
    ensures
        match r {
            Some(w) => word(s@, n as nat) == Some(w@),
            None => word(s@, n as nat) is None,
        },
{
    let ws = word_list(s);
    assert(texts(ws@).len() == ws@.len());
    if n < ws.len() {
        assert(texts(ws@)[n as int] == ws@[n as int]@);
        Some(ws[n].clone())
    } else {
        None
    }
}

/// The first line of `content` that begins with `p`.
pub fn find_line(content: &str, p: &str) -> (r: Option<String>)
    ensures
        match r {
            Some(l) => first_with_prefix(lines(content@), p@) == Some(l@),
            None => first_with_prefix(lines(content@), p@) is None,
        },
{
    let ls = line_list(content);
    let ghost all = lines(content@);
    let mut i: usize = 0;
    assert(all.skip(0) =~= all);
    while i < ls.len()
        invariant
            i <= ls.len(),
            texts(ls@) == all,
            all == lines(content@),
            first_with_prefix(all.skip(i as int), p@) == first_with_prefix(all, p@),
        decreases ls.len() - i,
    {
        assert(texts(ls@)[i as int] == ls@[i as int]@);
        if has_prefix(ls[i].as_str(), p) {
            return Some(ls[i].clone());
        }
        assert(all.skip(i as int).drop_first() =~= all.skip(i as int + 1));
        i = i + 1;
    }
    None
}

/// Reads a run of digits whose value is at most `max`.
fn digits_bounded(cs: &Vec<char>, from: usize, max: u64) -> (r: Option<u64>)
    requires
        from <= cs.len(),
    ensures
        match r {
            Some(v) => all_digits(cs@.skip(from as int)) && v == digits_value(cs@.skip(from as int))
                && v <= max,
            None => !all_digits(cs@.skip(from as int)) || digits_value(cs@.skip(from as int)) > max,
        },
{
    let ghost body = cs@.skip(from as int);
    if from == cs.len() {
        return None;
    }
    let mut acc: u64 = 0;
    let mut over = false;
    let mut i: usize = from;
    proof {
        assert(body.take(0) =~= Seq::<char>::empty());
    }
    while i < cs.len()
        invariant
            from <= i <= cs.len(),
            body == cs@.skip(from as int),
            forall|k: int| 0 <= k < i - from ==> is_digit(#[trigger] body[k]),
            !over ==> acc == digits_value(body.take(i - from)) && acc <= max,
            over ==> digits_value(body.take(i - from)) > max,
        decreases cs.len() - i,
    {
        let n: u32 = cs[i] as u32;
        assert(body[i - from] == cs@[i as int]);
        if n < 48 || n > 57 {
            assert(!is_digit(body[i - from]));
            return None;
        }
        let d: u64 = (n - 48) as u64;
        assert(body.take(i - from + 1).drop_last() =~= body.take(i - from));
        if !over {
            if acc > max / 10 || acc * 10 > max - d.min(max) || d > max {
                over = true;
            } else {
                acc = acc * 10 + d;
            }
        }
        i = i + 1;
    }
    assert(body.take(body.len() as int) =~= body);
    if over {
        None
    } else {
        Some(acc)
    }
}

/// Reads a number of at most `max`.
fn parse_max(s: &str, max: u64) -> (r: Option<u64>)
    ensures
        match r {
            Some(v) => parse_bounded(s@, max as nat) == Some(v as nat),
            None => parse_bounded(s@, max as nat) is None,
        },
{
    let cs = chars(s);
    let from: usize = if cs.len() > 0 && cs[0] == '+' {
        1
    } else {
        0
    };
    assert(cs@.skip(0) =~= cs@);
    assert(cs.len() > 0 ==> cs@.skip(1) =~= cs@.drop_first());
    digits_bounded(&cs, from, max)
}

/// Reads a `u64`.
pub fn parse_u64(s: &str) -> (r: Option<u64>)
    ensures
        match r {
            Some(v) => parse_bounded(s@, u64::MAX as nat) == Some(v as nat),
            None => parse_bounded(s@, u64::MAX as nat) is None,
        },
{
    parse_max(s, u64::MAX)
}

/// Reads a `u32`.
pub fn parse_u32(s: &str) -> (r: Option<u32>)
    ensures
        match r {
            Some(v) => parse_bounded(s@, u32::MAX as nat) == Some(v as nat),
            None => parse_bounded(s@, u32::MAX as nat) is None,
        },
{
    match parse_max(s, u32::MAX as u64) {
        Some(v) => Some(v as u32),
        None => None,
    }
}

/// The number that `s` writes, where an `i32` holds it.
pub open spec fn parse_i32_value(s: Seq<char>) -> Option<int> {
    match parse_int(s) {
        Some(v) if i32::MIN <= v <= i32::MAX => Some(v),
        _ => None,
    }
}

/// Reads an `i32`.
pub fn parse_i32(s: &str) -> (r: Option<i32>)
    ensures
        match r {
            Some(v) => parse_i32_value(s@) == Some(v as int),
            None => parse_i32_value(s@) is None,
        },
{
    let cs = chars(s);
    if cs.len() > 0 && cs[0] == '-' {
        assert(cs@.skip(1) =~= cs@.drop_first());
        match digits_bounded(&cs, 1, 0x8000_0000) {
            Some(v) => Some((-(v as i64)) as i32),
            None => None,
        }
    } else {
        match parse_max(s, 0x7fff_ffff) {
            Some(v) => Some(v as i32),
            None => None,
        }
    }
}

// -------------------------------------------------------------------- laws

/// A text has a part exactly when it is something, the part, and something more.
pub proof fn law_parts(s: Seq<char>, p: Seq<char>)
    ensures
        contains(s, p) <==> exists|a: Seq<char>, b: Seq<char>| s == #[trigger] ((a + p) + b),
        forall|a: Seq<char>, b: Seq<char>| contains(#[trigger] ((a + p) + b), p),
{
    assert forall|a: Seq<char>, b: Seq<char>| contains(#[trigger] ((a + p) + b), p) by {
        let t = (a + p) + b;
        assert(t.subrange(a.len() as int, a.len() as int + p.len()) =~= p);
        assert(occurs_at(t, p, a.len() as int));
    }
    if contains(s, p) {
        let i = choose|i: int| occurs_at(s, p, i);
        let a = s.take(i);
        let b = s.skip(i + p.len());
        assert(s.subrange(i, i + p.len()) =~= p);
        assert(s =~= (a + p) + b);
    }
}

/// A text begins with a prefix exactly when it is the prefix and something more.
pub proof fn law_prefixes(s: Seq<char>, p: Seq<char>)
    ensures
        starts_with(s, p) <==> exists|b: Seq<char>| s == #[trigger] (p + b),
        starts_with(p + s, p),
{
    assert((p + s).take(p.len() as int) =~= p);
    if starts_with(s, p) {
        let b = s.skip(p.len() as int);
        assert(s =~= p + b);
    }
    if exists|b: Seq<char>| s == #[trigger] (p + b) {
        let b = choose|b: Seq<char>| s == #[trigger] (p + b);
        assert((p + b).take(p.len() as int) =~= p);
    }
}

/// A text ends with a suffix exactly when it is something and the suffix.
pub proof fn law_suffixes(s: Seq<char>, p: Seq<char>)
    ensures
        ends_with(s, p) <==> exists|a: Seq<char>| s == #[trigger] (a + p),
        ends_with(s + p, p),
{
    assert((s + p).skip(s.len() as int) =~= p);
    if ends_with(s, p) {
        let a = s.take(s.len() - p.len());
        assert(s =~= a + p);
    }
    if exists|a: Seq<char>| s == #[trigger] (a + p) {
        let a = choose|a: Seq<char>| s == #[trigger] (a + p);
        assert((a + p).skip(a.len() as int) =~= p);
    }
}

/// The index of a character is that of its first occurrence, or the length of a
/// text without it.
pub proof fn law_index_is_the_first(s: Seq<char>, c: char)
    ensures
        index_of(s, c) <= s.len(),
        index_of(s, c) < s.len() ==> s[index_of(s, c) as int] == c,
        forall|i: int| 0 <= i < index_of(s, c) ==> #[trigger] s[i] != c,
    decreases s.len(),
{
    if s.len() > 0 && s[0] != c {
        let rest = s.drop_first();
        law_index_is_the_first(rest, c);
        assert forall|i: int| 0 <= i < index_of(s, c) implies #[trigger] s[i] != c by {
            if i > 0 {
                assert(rest[i - 1] == s[i]);
            }
        }
    }
}

pub(crate) proof fn lemma_index_behind(a: Seq<char>, b: Seq<char>, c: char)
    requires
        !a.contains(c),
    ensures
        index_of(a + b, c) == a.len() + index_of(b, c),
    decreases a.len(),
{
    if a.len() > 0 {
        let s = a + b;
        assert(a.contains(a[0]));
        assert(s[0] == a[0]);
        assert(s.drop_first() =~= a.drop_first() + b);
        assert(!a.drop_first().contains(c)) by {
            if a.drop_first().contains(c) {
                let i = choose|i: int| 0 <= i < a.drop_first().len() && a.drop_first()[i] == c;
                assert(a[i + 1] == c);
            }
        }
        lemma_index_behind(a.drop_first(), b, c);
    } else {
        assert(a + b =~= b);
    }
}

/// A text is split at each separator: a text without one is its only piece, and
/// what stands before the first one is the first piece of a longer text.
pub proof fn law_splitting(a: Seq<char>, b: Seq<char>, c: char)
    requires
        !a.contains(c),
    ensures
        split(a, c) == seq![a],
        split(a + seq![c] + b, c) == seq![a] + split(b, c),
{
    let e = Seq::<char>::empty();
    lemma_index_behind(a, e, c);
    assert(a + e =~= a);
    let s = a + seq![c] + b;
    let tail = seq![c] + b;
    assert(s =~= a + tail);
    lemma_index_behind(a, tail, c);
    assert(tail[0] == c);
    assert(index_of(tail, c) == 0);
    assert(s.take(a.len() as int) =~= a);
    assert(s.skip(a.len() as int + 1) =~= b);
}

/// The pieces of a text, joined by the separator, are the text.
pub proof fn law_pieces_make_the_text(s: Seq<char>, c: char)
    ensures
        join(split(s, c), seq![c]) == s,
        forall|i: int| 0 <= i < split(s, c).len() ==> !(#[trigger] split(s, c)[i]).contains(c),
        split(s, c).len() > 0,
    decreases s.len(),
{
    law_index_is_the_first(s, c);
    let n = index_of(s, c) as int;
    if n < s.len() {
        let rest = s.skip(n + 1);
        law_pieces_make_the_text(rest, c);
        let a = s.take(n);
        let ps = split(s, c);
        assert(ps == seq![a] + split(rest, c));
        lemma_join_head(a, split(rest, c), seq![c]);
        assert(s =~= a + seq![c] + rest);
        assert forall|i: int| 0 <= i < ps.len() implies !(#[trigger] ps[i]).contains(c) by {
            if i == 0 {
                if a.contains(c) {
                    let k = choose|k: int| 0 <= k < a.len() && a[k] == c;
                    assert(s[k] == c);
                }
            } else {
                assert(ps[i] == split(rest, c)[i - 1]);
            }
        }
    } else {
        assert(split(s, c) =~= seq![s]);
        assert forall|i: int| 0 <= i < split(s, c).len() implies !(#[trigger] split(
            s,
            c,
        )[i]).contains(c) by {
            if s.contains(c) {
                let k = choose|k: int| 0 <= k < s.len() && s[k] == c;
                assert(s[k] != c);
            }
        }
    }
}

proof fn lemma_join_head(a: Seq<char>, rest: Seq<Seq<char>>, sep: Seq<char>)
    requires
        rest.len() > 0,
    ensures
        join(seq![a] + rest, sep) == a + sep + join(rest, sep),
    decreases rest.len(),
{
    let all = seq![a] + rest;
    assert(all.drop_last() =~= seq![a] + rest.drop_last());
    if rest.len() > 1 {
        lemma_join_head(a, rest.drop_last(), sep);
        assert(join(all, sep) =~= a + sep + join(rest, sep));
    } else {
        assert(all.drop_last() =~= seq![a]);
        assert(join(seq![a], sep) == a);
        assert(join(rest, sep) == rest[0]);
    }
}

/// Texts are joined one after the other, with the separator between them.
pub proof fn law_joining(a: Seq<char>, b: Seq<char>, rest: Seq<Seq<char>>, sep: Seq<char>)
    ensures
        join(Seq::empty(), sep).len() == 0,
        join(seq![a], sep) == a,
        join(seq![a, b] + rest, sep) == a + sep + join(seq![b] + rest, sep),
{
    lemma_join_head(a, seq![b] + rest, sep);
    assert(seq![a] + (seq![b] + rest) =~= seq![a, b] + rest);
}

/// Lines end at a line feed, with a carriage return before it as part of the end.
/// What stands behind the last line feed is a line where it is not empty.
pub proof fn law_lines(a: Seq<char>, b: Seq<char>)
    requires
        !a.contains('\n'),
    ensures
        lines(Seq::empty()).len() == 0,
        a.len() > 0 ==> lines(a) == seq![a],
        a.len() == 0 || a.last() != '\r' ==> lines(a + seq!['\n'] + b) == seq![a] + lines(b),
        lines(a + seq!['\r', '\n'] + b) == seq![a] + lines(b),
{
    let e = Seq::<char>::empty();
    lemma_index_behind(a, e, '\n');
    assert(a + e =~= a);
    let s = a + seq!['\n'] + b;
    let tail = seq!['\n'] + b;
    assert(s =~= a + tail);
    lemma_index_behind(a, tail, '\n');
    assert(index_of(tail, '\n') == 0);
    assert(s.take(a.len() as int) =~= a);
    assert(s.skip(a.len() as int + 1) =~= b);
    let r = a.push('\r');
    let t = a + seq!['\r', '\n'] + b;
    assert(t =~= r + tail);
    assert(!r.contains('\n')) by {
        if r.contains('\n') {
            let k = choose|k: int| 0 <= k < r.len() && r[k] == '\n';
            assert(a[k] == '\n');
        }
    }
    lemma_index_behind(r, tail, '\n');
    assert(t.take(r.len() as int) =~= r);
    assert(t.skip(r.len() as int + 1) =~= b);
    assert(r.drop_last() =~= a);
}

/// Whether a text is made of white space.
pub open spec fn blank(s: Seq<char>) -> bool {
    forall|i: int| 0 <= i < s.len() ==> is_space(#[trigger] s[i])
}

/// Whether a text holds no white space.
pub open spec fn solid(s: Seq<char>) -> bool {
    forall|i: int| 0 <= i < s.len() ==> !is_space(#[trigger] s[i])
}

proof fn lemma_word_up_to(w: Seq<char>, rest: Seq<char>)
    requires
        solid(w),
        rest.len() > 0 ==> is_space(rest[0]),
    ensures
        word_len(w + rest) == w.len(),
    decreases w.len(),
{
    if w.len() > 0 {
        assert((w + rest)[0] == w[0]);
        assert((w + rest).drop_first() =~= w.drop_first() + rest);
        assert(solid(w.drop_first())) by {
            assert forall|i: int| 0 <= i < w.drop_first().len() implies !is_space(
                #[trigger] w.drop_first()[i],
            ) by {
                assert(w[i + 1] == w.drop_first()[i]);
            }
        }
        lemma_word_up_to(w.drop_first(), rest);
    } else {
        assert(w + rest =~= rest);
    }
}

/// Words stand between white space: a solid text is one word, and white space
/// before or behind a word is no part of any.
pub proof fn law_words(w: Seq<char>, c: char, rest: Seq<char>)
    requires
        w.len() > 0,
        solid(w),
        is_space(c),
    ensures
        words(Seq::empty()).len() == 0,
        words(w) == seq![w],
        words(seq![c] + rest) == words(rest),
        words(w + seq![c] + rest) == seq![w] + words(rest),
{
    let e = Seq::<char>::empty();
    lemma_word_up_to(w, e);
    assert(w + e =~= w);
    let s = w + seq![c] + rest;
    let tail = seq![c] + rest;
    assert(s =~= w + tail);
    lemma_word_up_to(w, tail);
    assert(s[0] == w[0]);
    assert(s.take(w.len() as int) =~= w);
    assert(s.skip(w.len() as int + 1) =~= rest);
    assert(tail.drop_first() =~= rest);
}

proof fn lemma_trim_start_cut(s: Seq<char>) -> (a: Seq<char>)
    ensures
        blank(a),
        s == a + trim_start(s),
        trim_start(s).len() > 0 ==> !is_space(trim_start(s)[0]),
    decreases s.len(),
{
    if s.len() > 0 && is_space(s[0]) {
        let r = lemma_trim_start_cut(s.drop_first());
        let a = seq![s[0]] + r;
        assert(s =~= seq![s[0]] + s.drop_first());
        assert(s =~= a + trim_start(s));
        assert forall|i: int| 0 <= i < a.len() implies is_space(#[trigger] a[i]) by {
            if i > 0 {
                assert(a[i] == r[i - 1]);
            }
        }
        a
    } else {
        assert(s =~= Seq::<char>::empty() + s);
        Seq::empty()
    }
}

proof fn lemma_trim_end_cut(s: Seq<char>) -> (b: Seq<char>)
    ensures
        blank(b),
        s == trim_end(s) + b,
        trim_end(s).len() > 0 ==> !is_space(trim_end(s).last()),
    decreases s.len(),
{
    if s.len() > 0 && is_space(s.last()) {
        let r = lemma_trim_end_cut(s.drop_last());
        let b = r.push(s.last());
        assert(s =~= s.drop_last().push(s.last()));
        assert(s =~= trim_end(s) + b);
        b
    } else {
        assert(s =~= s + Seq::<char>::empty());
        Seq::empty()
    }
}

/// Trimming takes white space off both ends, all of it and nothing else.
pub proof fn law_trimming(s: Seq<char>)
    ensures
        exists|a: Seq<char>, b: Seq<char>|
            s == #[trigger] ((a + trim(s)) + b) && blank(a) && blank(b),
        trim(s).len() > 0 ==> !is_space(trim(s)[0]) && !is_space(trim(s).last()),
{
    let a = lemma_trim_start_cut(s);
    let m = trim_start(s);
    let b = lemma_trim_end_cut(m);
    assert((a + trim(s)) + b =~= s);
    if trim(s).len() > 0 {
        assert(m[0] == trim(s)[0]);
    }
}

/// Decimal digits: a number below ten is one digit, and a digit behind a number
/// makes ten times the number and the digit. Reading a text takes digits so.
pub proof fn law_decimal_places(n: nat, d: nat, s: Seq<char>)
    requires
        d < 10,
    ensures
        dec(d) == seq![(48 + d) as char],
        n > 0 ==> dec(10 * n + d) == dec(n).push((48 + d) as char),
        digits_value(Seq::empty()) == 0,
        digits_value(s.push((48 + d) as char)) == 10 * digits_value(s) + d,
        forall|c: char| #[trigger] is_digit(c) <==> 48 <= c as u32 <= 57,
{
    assert(s.push((48 + d) as char).drop_last() =~= s);
    assert((10 * n + d) / 10 == n && (10 * n + d) % 10 == d);
}

/// A whole number is written with its sign and read back as itself.
pub proof fn law_signed_round_trip(n: int)
    ensures
        parse_int(dec_int(n)) == Some(n),
        n < 0 ==> dec_int(n) == seq!['-'] + dec((-n) as nat),
        n >= 0 ==> dec_int(n) == dec(n as nat),
{
    if n < 0 {
        let m = (-n) as nat;
        law_decimal_round_trip(m);
        let s = dec_int(n);
        assert(s.drop_first() =~= dec(m));
        lemma_plain_digits(m);
    } else {
        law_decimal_round_trip(n as nat);
    }
}

pub(crate) proof fn lemma_plain_digits(m: nat)
    ensures
        all_digits(dec(m)),
        digits_value(dec(m)) == m,
{
    law_decimal_round_trip(m);
    lemma_dec_no_sign(m);
}

proof fn lemma_dec_no_sign(m: nat)
    ensures
        dec(m).len() > 0,
        dec(m)[0] != '+',
    decreases m,
{
    if m >= 10 {
        lemma_dec_no_sign(m / 10);
    }
}

/// A number is read where a text is digits, with a plus before them at most, and
/// no larger than the bound.
pub proof fn law_reading_numbers(s: Seq<char>, max: nat, v: nat)
    ensures
        all_digits(s) <==> s.len() > 0 && forall|i: int|
            0 <= i < s.len() ==> 48 <= (#[trigger] s[i]) as u32 <= 57,
        all_digits(s) ==> parse_nat(s) == Some(digits_value(s)),
        all_digits(s) ==> parse_nat(seq!['+'] + s) == Some(digits_value(s)),
        !all_digits(s) && (s.len() == 0 || s[0] != '+') ==> parse_nat(s) is None,
        !all_digits(s) ==> parse_nat(seq!['+'] + s) is None,
        parse_bounded(s, max) == Some(v) <==> parse_nat(s) == Some(v) && v <= max,
        parse_bounded(dec(v), max) is Some <==> v <= max,
{
    assert((seq!['+'] + s).drop_first() =~= s);
    law_decimal_round_trip(v);
    if all_digits(s) {
        assert(is_digit(s[0]));
    }
}

/// The line that is found is the first with the prefix.
pub proof fn law_first_with_prefix(ls: Seq<Seq<char>>, p: Seq<char>, i: int)
    requires
        0 <= i < ls.len(),
        starts_with(ls[i], p),
        forall|j: int| 0 <= j < i ==> !starts_with(#[trigger] ls[j], p),
    ensures
        first_with_prefix(ls, p) == Some(ls[i]),
    decreases i,
{
    if i > 0 {
        let rest = ls.drop_first();
        assert(rest[i - 1] == ls[i]);
        assert forall|j: int| 0 <= j < i - 1 implies !starts_with(#[trigger] rest[j], p) by {
            assert(rest[j] == ls[j + 1]);
        }
        assert(!starts_with(ls[0], p));
        law_first_with_prefix(rest, p, i - 1);
    }
}

/// The last line with a prefix is the last.
pub proof fn law_last_with_prefix(ls: Seq<Seq<char>>, p: Seq<char>, i: int)
    requires
        0 <= i < ls.len(),
        starts_with(ls[i], p),
        forall|j: int| i < j < ls.len() ==> !starts_with(#[trigger] ls[j], p),
    ensures
        last_with_prefix(ls, p) == Some(ls[i]),
    decreases ls.len(),
{
    if i < ls.len() - 1 {
        let rest = ls.drop_last();
        assert(rest[i] == ls[i]);
        assert forall|j: int| i < j < rest.len() implies !starts_with(#[trigger] rest[j], p) by {
            assert(rest[j] == ls[j]);
        }
        assert(!starts_with(ls[ls.len() - 1], p));
        law_last_with_prefix(rest, p, i);
    }
}

/// No line is found where none has the prefix.
pub proof fn law_no_line_with_prefix(ls: Seq<Seq<char>>, p: Seq<char>)
    requires
        forall|j: int| 0 <= j < ls.len() ==> !starts_with(#[trigger] ls[j], p),
    ensures
        first_with_prefix(ls, p) is None,
        last_with_prefix(ls, p) is None,
    decreases ls.len(),
{
    if ls.len() > 0 {
        assert(!starts_with(ls[0], p));
        assert(!starts_with(ls[ls.len() - 1], p));
        let rest = ls.drop_first();
        assert forall|j: int| 0 <= j < rest.len() implies !starts_with(#[trigger] rest[j], p) by {
            assert(rest[j] == ls[j + 1]);
        }
        law_no_line_with_prefix(rest, p);
        let init = ls.drop_last();
        assert forall|j: int| 0 <= j < init.len() implies !starts_with(#[trigger] init[j], p) by {
            assert(init[j] == ls[j]);
        }
        law_no_line_with_prefix(init, p);
    }
}

/// Padding fills a text up to a width with blanks, on one side, and cuts nothing.
pub proof fn law_padding(s: Seq<char>, width: nat)
    ensures
        padded(s, width).len() == if s.len() >= width { s.len() } else { width },
        indented(s, width).len() == padded(s, width).len(),
        padded(s, width).take(s.len() as int) == s,
        indented(s, width).skip(indented(s, width).len() - s.len()) == s,
        forall|i: int| s.len() <= i < padded(s, width).len() ==> #[trigger] padded(s, width)[i] == ' ',
        forall|i: int|
            0 <= i < indented(s, width).len() - s.len() ==> #[trigger] indented(s, width)[i] == ' ',
{
    assert(padded(s, width).take(s.len() as int) =~= s);
    assert(indented(s, width).skip(indented(s, width).len() - s.len()) =~= s);
}

/// Small letters: A to Z become a to z, and nothing else changes.
pub proof fn law_small_letters(s: Seq<char>, i: int)
    requires
        0 <= i < s.len(),
    ensures
        ascii_lower(s).len() == s.len(),
        65 <= s[i] as u32 <= 90 ==> ascii_lower(s)[i] == (s[i] as u32 + 32) as char,
        !(65 <= s[i] as u32 <= 90) ==> ascii_lower(s)[i] == s[i],
{
}

} // verus!
