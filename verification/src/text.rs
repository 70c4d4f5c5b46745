//! Text: the operations on strings that the palette's rules are made of.
//!
//! A string is modelled by the sequence of its characters, a list of strings by
//! the sequence of those sequences.

use vstd::prelude::*;
use vstd::string::*;

verus! {

/// Equality of `str`, by `<str as PartialEq>::eq`: two slices are equal when
/// they hold the same characters in the same order.
pub assume_specification[ <str as PartialEq>::eq ](a: &str, b: &str) -> (r: bool)
    ensures
        r == (a@ == b@),
;

/// `String::push` appends the character to the end of the string.
pub assume_specification[ String::push ](s: &mut String, ch: char)
    ensures
        final(s)@ == old(s)@.push(ch),
;

/// `String::pop` removes the last character of the string and returns it, or
/// returns `None` and changes nothing when there is none.
pub assume_specification[ String::pop ](s: &mut String) -> (r: Option<char>)
    ensures
        old(s)@.len() == 0 ==> r is None && final(s)@ == old(s)@,
        old(s)@.len() > 0 ==> r == Some(old(s)@.last()) && final(s)@ == old(s)@.drop_last(),
;

/// The characters of each string of a list.
pub open spec fn texts(list: Seq<String>) -> Seq<Seq<char>> {
    list.map_values(|s: String| s@)
}

/// The characters of each slice of a list.
pub open spec fn slices(list: Seq<&str>) -> Seq<Seq<char>> {
    list.map_values(|s: &str| s@)
}

/// The characters of an optional string.
pub open spec fn opt_text(s: Option<String>) -> Option<Seq<char>> {
    match s {
        Some(s) => Some(s@),
        None => None,
    }
}

/// The characters of an optional string slice.
pub open spec fn opt_str(s: Option<&str>) -> Option<Seq<char>> {
    match s {
        Some(s) => Some(s@),
        None => None,
    }
}

/// The characters with the Unicode property White_Space.
pub open spec fn white(c: char) -> bool {
    ||| 0x9 <= c as int <= 0xd
    ||| c as int == 0x20
    ||| c as int == 0x85
    ||| c as int == 0xa0
    ||| c as int == 0x1680
    ||| 0x2000 <= c as int <= 0x200a
    ||| 0x2028 <= c as int <= 0x2029
    ||| c as int == 0x202f
    ||| c as int == 0x205f
    ||| c as int == 0x3000
}

/// `s` without its leading whitespace.
pub open spec fn trim_start(s: Seq<char>) -> Seq<char>
    decreases s.len(),
{
    if s.len() > 0 && white(s[0]) {
        trim_start(s.drop_first())
    } else {
        s
    }
}

/// `s` without its trailing whitespace.
pub open spec fn trim_end(s: Seq<char>) -> Seq<char>
    decreases s.len(),
{
    if s.len() > 0 && white(s.last()) {
        trim_end(s.drop_last())
    } else {
        s
    }
}

/// `s` without the whitespace around it.
pub open spec fn trimmed(s: Seq<char>) -> Seq<char> {
    trim_end(trim_start(s))
}

/// What parts a text into runs.
#[derive(Clone, Copy, PartialEq, Eq, Structural)]
pub enum Separator {
    /// Whitespace parts words.
    White,
    /// A slash parts the names of a path.
    Slash,
}

/// `s` without its trailing whitespace.
pub fn trim_tail(s: &str) -> (r: String)
    ensures
        r@ == trim_end(s@),
{
    let cs = chars_of(s);
    let mut hi: usize = cs.len();
    assert(cs@.subrange(0, hi as int) == cs@);
    while hi > 0 && is_white(cs[hi - 1])
        invariant
            hi <= cs@.len(),
            trim_end(cs@.subrange(0, hi as int)) == trim_end(cs@),
        decreases hi,
    {
        assert(cs@.subrange(0, hi as int).drop_last() == cs@.subrange(0, hi - 1));
        hi -= 1;
    }
    text_of(&cs, 0, hi)
}

impl Separator {
    /// Whether `c` parts runs.
    pub open spec fn parts(self, c: char) -> bool {
        match self {
            Separator::White => white(c),
            Separator::Slash => c == '/',
        }
    }
}

/// How many characters at the front of `s` come before the first separator.
pub open spec fn run_len(s: Seq<char>, by: Separator) -> nat
    decreases s.len(),
{
    if s.len() == 0 || by.parts(s[0]) {
        0
    } else {
        1 + run_len(s.drop_first(), by)
    }
}

/// The non-empty runs of characters between separators, in order.
pub open spec fn runs(s: Seq<char>, by: Separator) -> Seq<Seq<char>>
    decreases s.len(),
{
    if s.len() == 0 {
        Seq::empty()
    } else if by.parts(s[0]) {
        runs(s.drop_first(), by)
    } else {
        let n = run_len(s, by) as int;
        proof {
            lemma_run_len_bounds(s, by);
        }
        seq![s.take(n)] + runs(s.skip(n), by)
    }
}

/// The run at the front of a text is part of it.
pub proof fn lemma_run_len_bounds(s: Seq<char>, by: Separator)
    ensures
        run_len(s, by) <= s.len(),
        s.len() > 0 && !by.parts(s[0]) ==> run_len(s, by) > 0,
    decreases s.len(),
{
    if s.len() > 0 && !by.parts(s[0]) {
        lemma_run_len_bounds(s.drop_first(), by);
    }
}

/// The whitespace-separated words of `s`.
pub open spec fn words(s: Seq<char>) -> Seq<Seq<char>> {
    runs(s, Separator::White)
}

/// The strings of a list, one after the other, with `sep` between neighbours.
pub open spec fn joined(list: Seq<Seq<char>>, sep: Seq<char>) -> Seq<char>
    decreases list.len(),
{
    if list.len() == 0 {
        Seq::empty()
    } else if list.len() == 1 {
        list[0]
    } else {
        joined(list.drop_last(), sep) + sep + list.last()
    }
}

/// `n` copies of `s`, one after the other.
pub open spec fn repeated(s: Seq<char>, n: nat) -> Seq<char>
    decreases n,
{
    if n == 0 {
        Seq::empty()
    } else {
        repeated(s, (n - 1) as nat) + s
    }
}

/// Whether `s` ends in `tail`.
pub open spec fn ends_in(s: Seq<char>, tail: Seq<char>) -> bool {
    s.len() >= tail.len() && s.skip(s.len() - tail.len()) == tail
}

/// `s` without the copies of `c` that it starts with.
pub open spec fn strip_leading(s: Seq<char>, c: char) -> Seq<char>
    decreases s.len(),
{
    if s.len() > 0 && s[0] == c {
        strip_leading(s.drop_first(), c)
    } else {
        s
    }
}

/// The decimal digits of `n`, without leading zeros.
pub open spec fn digits(n: nat) -> Seq<char>
    decreases n,
{
    if n < 10 {
        seq![(48 + n) as char]
    } else {
        digits(n / 10).push((48 + n % 10) as char)
    }
}

/// `n` in decimal, with a minus sign in front when it is negative.
pub open spec fn decimal(n: int) -> Seq<char> {
    if n < 0 {
        seq!['-'] + digits((-n) as nat)
    } else {
        digits(n as nat)
    }
}

/// How two values of an ordered type stand to each other.
#[derive(Clone, Copy, PartialEq, Eq, Structural, Debug)]
pub enum Order {
    Less,
    Equal,
    Greater,
}

impl Order {
    /// The same comparison seen from the other side.
    pub open spec fn flipped(self) -> Order {
        match self {
            Order::Less => Order::Greater,
            Order::Equal => Order::Equal,
            Order::Greater => Order::Less,
        }
    }

    /// This comparison, or `next` when it found no difference.
    pub open spec fn or_else(self, next: Order) -> Order {
        if self == Order::Equal {
            next
        } else {
            self
        }
    }
}

/// The order of two integers.
pub open spec fn int_order(a: int, b: int) -> Order {
    if a < b {
        Order::Less
    } else if a == b {
        Order::Equal
    } else {
        Order::Greater
    }
}

/// The lexicographic order of two texts by code point, in which a text comes
/// after each of its own beginnings.
pub open spec fn text_order(a: Seq<char>, b: Seq<char>) -> Order
    decreases a.len(),
{
    if a.len() == 0 {
        if b.len() == 0 {
            Order::Equal
        } else {
            Order::Less
        }
    } else if b.len() == 0 {
        Order::Greater
    } else {
        int_order(a[0] as int, b[0] as int).or_else(text_order(a.drop_first(), b.drop_first()))
    }
}

/// Whether `c` has the Unicode property White_Space.
pub fn is_white(c: char) -> (r: bool)
    ensures
        r == white(c),
{
    let n: u32 = c as u32;
    (0x9 <= n && n <= 0xd) || n == 0x20 || n == 0x85 || n == 0xa0 || n == 0x1680 || (0x2000 <= n
        && n <= 0x200a) || n == 0x2028 || n == 0x2029 || n == 0x202f || n == 0x205f || n == 0x3000
}

/// The characters of `s`.
pub fn chars_of(s: &str) -> (r: Vec<char>)
    ensures
        r@ == s@,
{
    let mut out: Vec<char> = Vec::new();
    for c in it: s.chars()
        invariant
            out@ == it.seq().take(it.index() as int),
            it.seq() == s@,
    {
        out.push(c);
    }
    out
}

/// The string of the characters `chars[from..to]`.
pub fn text_of(chars: &Vec<char>, from: usize, to: usize) -> (r: String)
    requires
        from <= to <= chars@.len(),
    ensures
        r@ == chars@.subrange(from as int, to as int),
{
    let mut out = String::new();
    let mut i: usize = from;
    while i < to
        invariant
            from <= i <= to <= chars@.len(),
            out@ == chars@.subrange(from as int, i as int),
        decreases to - i,
    {
        out.push(chars[i]);
        i += 1;
        assert(chars@.subrange(from as int, i as int) == chars@.subrange(from as int, i - 1).push(
            chars@[i - 1],
        ));
    }
    out
}

/// `s` without the whitespace around it.
pub fn trim(s: &str) -> (r: String)
    ensures
        r@ == trimmed(s@),
{
    let cs = chars_of(s);
    let n: usize = cs.len();
    let mut lo: usize = 0;
    assert(cs@.skip(0) == cs@);
    while lo < n && is_white(cs[lo])
        invariant
            lo <= n == cs@.len(),
            trim_start(cs@.skip(lo as int)) == trim_start(cs@),
        decreases n - lo,
    {
        assert(cs@.skip(lo as int).drop_first() == cs@.skip(lo + 1));
        lo += 1;
    }
    let mut hi: usize = n;
    assert(cs@.skip(lo as int) == cs@.subrange(lo as int, hi as int));
    while hi > lo && is_white(cs[hi - 1])
        invariant
            lo <= hi <= n == cs@.len(),
            trim_end(cs@.subrange(lo as int, hi as int)) == trim_end(cs@.skip(lo as int)),
        decreases hi,
    {
        assert(cs@.subrange(lo as int, hi as int).drop_last() == cs@.subrange(lo as int, hi - 1));
        hi -= 1;
    }
    text_of(&cs, lo, hi)
}

impl Separator {
    /// Whether `c` parts runs.
    pub fn is_parted_by(self, c: char) -> (r: bool)
        ensures
            r == self.parts(c),
    {
        match self {
            Separator::White => is_white(c),
            Separator::Slash => c == '/',
        }
    }
}

/// The run at the front of a text ends before the first separator.
pub proof fn lemma_run_len(s: Seq<char>, by: Separator, n: int)
    requires
        0 <= n <= s.len(),
        forall|i: int| 0 <= i < n ==> !by.parts(#[trigger] s[i]),
        n < s.len() ==> by.parts(s[n]),
    ensures
        run_len(s, by) == n,
    decreases n,
{
    if n > 0 {
        assert(!by.parts(s[0]));
        assert forall|i: int| 0 <= i < n - 1 implies !by.parts(#[trigger] s.drop_first()[i]) by {
            assert(s.drop_first()[i] == s[i + 1]);
        }
        lemma_run_len(s.drop_first(), by, n - 1);
    }
}

/// The non-empty runs of characters of `s` between separators, in order.
pub fn split_runs(s: &str, by: Separator) -> (r: Vec<String>)
    ensures
        texts(r@) == runs(s@, by),
{
    let cs = chars_of(s);
    let n: usize = cs.len();
    let mut out: Vec<String> = Vec::new();
    let mut at: usize = 0;
    assert(cs@.skip(0) == cs@);
    while at < n
        invariant
            at <= n == cs@.len(),
            texts(out@) + runs(cs@.skip(at as int), by) == runs(cs@, by),
        decreases n - at,
    {
        let ghost rest = cs@.skip(at as int);
        if by.is_parted_by(cs[at]) {
            assert(rest.drop_first() == cs@.skip(at + 1));
            at += 1;
        } else {
            let mut end: usize = at + 1;
            while end < n && !by.is_parted_by(cs[end])
                invariant
                    at < end <= n == cs@.len(),
                    forall|i: int| at <= i < end ==> !by.parts(#[trigger] cs@[i]),
                decreases n - end,
            {
                end += 1;
            }
            proof {
                assert forall|i: int| 0 <= i < end - at implies !by.parts(#[trigger] rest[i]) by {
                    assert(rest[i] == cs@[at + i]);
                }
                lemma_run_len(rest, by, end - at);
                assert(rest.take(end - at) == cs@.subrange(at as int, end as int));
                assert(rest.skip(end - at) == cs@.skip(end as int));
            }
            let ghost before = texts(out@);
            out.push(text_of(&cs, at, end));
            assert(texts(out@) == before.push(cs@.subrange(at as int, end as int)));
            assert(before + (seq![rest.take(end - at)] + runs(rest.skip(end - at), by)) == texts(
                out@,
            ) + runs(cs@.skip(end as int), by));
            at = end;
        }
    }
    assert(runs(cs@.skip(at as int), by) == Seq::<Seq<char>>::empty());
    assert(texts(out@) + Seq::<Seq<char>>::empty() == texts(out@));
    out
}

/// The strings of `list`, one after the other, with `sep` between neighbours.
pub fn join(list: &Vec<String>, sep: &str) -> (r: String)
    ensures
        r@ == joined(texts(list@), sep@),
{
    let mut out = String::new();
    let mut i: usize = 0;
    while i < list.len()
        invariant
            i <= list@.len(),
            out@ == joined(texts(list@).take(i as int), sep@),
        decreases list@.len() - i,
    {
        if i > 0 {
            out.append(sep);
        }
        out.append(list[i].as_str());
        i += 1;
        assert(texts(list@).take(i as int).drop_last() == texts(list@).take(i - 1));
        assert(Seq::<char>::empty() + list@[i - 1]@ == list@[i - 1]@);
    }
    assert(texts(list@).take(i as int) == texts(list@));
    out
}

/// `n` copies of `s`, one after the other.
pub fn repeat(s: &str, n: usize) -> (r: String)
    ensures
        r@ == repeated(s@, n as nat),
{
    let mut out = String::new();
    let mut i: usize = 0;
    while i < n
        invariant
            i <= n,
            out@ == repeated(s@, i as nat),
        decreases n - i,
    {
        out.append(s);
        i += 1;
    }
    out
}

/// Whether `s` ends in `tail`.
pub fn ends_with(s: &str, tail: &str) -> (r: bool)
    ensures
        r == ends_in(s@, tail@),
{
    let n: usize = s.unicode_len();
    let m: usize = tail.unicode_len();
    if n < m {
        return false;
    }
    s.substring_char(n - m, n).eq(tail)
}

/// `s` without the copies of `c` that it starts with.
pub fn trim_leading(s: &str, c: char) -> (r: String)
    ensures
        r@ == strip_leading(s@, c),
{
    let cs = chars_of(s);
    let n: usize = cs.len();
    let mut lo: usize = 0;
    assert(cs@.skip(0) == cs@);
    while lo < n && cs[lo] == c
        invariant
            lo <= n == cs@.len(),
            strip_leading(cs@.skip(lo as int), c) == strip_leading(cs@, c),
        decreases n - lo,
    {
        assert(cs@.skip(lo as int).drop_first() == cs@.skip(lo + 1));
        lo += 1;
    }
    assert(cs@.skip(lo as int) == cs@.subrange(lo as int, n as int));
    text_of(&cs, lo, n)
}

/// Whether `c` is one of the characters of `s`.
pub fn has_char(s: &str, c: char) -> (r: bool)
    ensures
        r == s@.contains(c),
{
    let cs = chars_of(s);
    let mut i: usize = 0;
    while i < cs.len()
        invariant
            i <= cs@.len(),
            forall|j: int| 0 <= j < i ==> cs@[j] != c,
            cs@ == s@,
        decreases cs@.len() - i,
    {
        if cs[i] == c {
            return true;
        }
        i += 1;
    }
    false
}

/// Whether `s` is one of the strings of `list`.
pub fn has_text(list: &Vec<String>, s: &str) -> (r: bool)
    ensures
        r == texts(list@).contains(s@),
{
    let mut i: usize = 0;
    while i < list.len()
        invariant
            i <= list@.len(),
            forall|j: int| 0 <= j < i ==> #[trigger] texts(list@)[j] != s@,
        decreases list@.len() - i,
    {
        if list[i].as_str().eq(s) {
            assert(texts(list@)[i as int] == s@);
            return true;
        }
        i += 1;
    }
    false
}

/// Whether two lists hold the same strings in the same order.
pub fn same_texts(a: &Vec<String>, b: &Vec<String>) -> (r: bool)
    ensures
        r == (texts(a@) == texts(b@)),
{
    if a.len() != b.len() {
        assert(texts(a@).len() != texts(b@).len());
        return false;
    }
    let mut i: usize = 0;
    while i < a.len()
        invariant
            i <= a@.len() == b@.len(),
            forall|j: int| 0 <= j < i ==> #[trigger] texts(a@)[j] == texts(b@)[j],
        decreases a@.len() - i,
    {
        if !a[i].as_str().eq(b[i].as_str()) {
            assert(texts(a@)[i as int] != texts(b@)[i as int]);
            return false;
        }
        i += 1;
    }
    assert(texts(a@) =~= texts(b@));
    true
}

/// A copy of a list of strings.
pub fn copy_texts(list: &Vec<String>) -> (r: Vec<String>)
    ensures
        texts(r@) == texts(list@),
{
    list.clone()
}

/// The strings of a slice, owned.
pub fn own_texts(list: &[String]) -> (r: Vec<String>)
    ensures
        texts(r@) == texts(list@),
{
    let mut out: Vec<String> = Vec::new();
    let mut i: usize = 0;
    while i < list.len()
        invariant
            i <= list@.len(),
            out@ == list@.take(i as int),
        decreases list@.len() - i,
    {
        out.push(list[i].clone());
        i += 1;
    }
    assert(list@.take(i as int) == list@);
    out
}

/// Appends the decimal digits of `n` to `out`.
fn push_digits(out: &mut String, n: u64)
    ensures
        final(out)@ == old(out)@ + digits(n as nat),
    decreases n,
{
    if n >= 10 {
        push_digits(out, n / 10);
    }
    let d: u8 = (n % 10) as u8;
    out.push((48 + d) as char);
    assert(out@ == old(out)@ + digits(n as nat));
}

/// `n` in decimal.
pub fn decimal_of(n: i64) -> (r: String)
    ensures
        r@ == decimal(n as int),
{
    let mut out = String::new();
    if n < 0 {
        out.push('-');
        push_digits(&mut out, (-(n as i128)) as u64);
    } else {
        push_digits(&mut out, n as u64);
    }
    assert(out@ == decimal(n as int));
    out
}

/// A count in decimal.
pub fn count_of(n: usize) -> (r: String)
    ensures
        r@ == digits(n as nat),
{
    let mut out = String::new();
    push_digits(&mut out, n as u64);
    assert(out@ =~= digits(n as nat));
    out
}

/// Two texts, one after the other.
pub fn concat(a: &str, b: &str) -> (r: String)
    ensures
        r@ == a@ + b@,
{
    let mut out = a.to_owned();
    out.append(b);
    out
}

/// The lexicographic order of two texts by code point.
pub fn order_texts(a: &str, b: &str) -> (r: Order)
    ensures
        r == text_order(a@, b@),
{
    let x = chars_of(a);
    let y = chars_of(b);
    let mut i: usize = 0;
    assert(x@.skip(0) == x@ && y@.skip(0) == y@);
    while i < x.len() && i < y.len()
        invariant
            i <= x@.len(),
            i <= y@.len(),
            x@ == a@,
            y@ == b@,
            text_order(x@.skip(i as int), y@.skip(i as int)) == text_order(a@, b@),
        decreases x@.len() - i,
    {
        assert(x@.skip(i as int).drop_first() == x@.skip(i + 1));
        assert(y@.skip(i as int).drop_first() == y@.skip(i + 1));
        if x[i] < y[i] {
            return Order::Less;
        }
        if x[i] > y[i] {
            return Order::Greater;
        }
        i += 1;
    }
    if i < y.len() {
        Order::Less
    } else if i < x.len() {
        Order::Greater
    } else {
        Order::Equal
    }
}

/// The order of texts finds no difference exactly between equal texts, and
/// turning the two texts round turns the answer round.
pub proof fn lemma_text_order_symmetric(a: Seq<char>, b: Seq<char>)
    ensures
        text_order(b, a) == text_order(a, b).flipped(),
        text_order(a, b) == Order::Equal <==> a == b,
    decreases a.len(),
{
    if a.len() > 0 && b.len() > 0 {
        lemma_text_order_symmetric(a.drop_first(), b.drop_first());
        assert(seq![a[0]] + a.drop_first() == a);
        assert(seq![b[0]] + b.drop_first() == b);
    } else {
        assert(a.len() == 0 && b.len() == 0 ==> a == b);
    }
}

/// The order of texts is transitive.
pub proof fn lemma_text_order_transitive(a: Seq<char>, b: Seq<char>, c: Seq<char>)
    requires
        text_order(a, b) != Order::Greater,
        text_order(b, c) != Order::Greater,
    ensures
        text_order(a, c) != Order::Greater,
        text_order(a, c) == Order::Equal ==> text_order(a, b) == Order::Equal,
    decreases a.len(),
{
    if a.len() > 0 && b.len() > 0 && c.len() > 0 {
        if a[0] == b[0] && b[0] == c[0] {
            lemma_text_order_transitive(a.drop_first(), b.drop_first(), c.drop_first());
        }
    }
}

/// A trimmed text neither starts nor ends with whitespace.
pub proof fn lemma_trimmed(s: Seq<char>)
    ensures
        trimmed(s).len() > 0 ==> !white(trimmed(s)[0]) && !white(trimmed(s).last()),
{
    lemma_trim_start(s);
    lemma_trim_end(trim_start(s));
}

proof fn lemma_trim_start(s: Seq<char>)
    ensures
        trim_start(s).len() > 0 ==> !white(trim_start(s)[0]),
    decreases s.len(),
{
    if s.len() > 0 && white(s[0]) {
        lemma_trim_start(s.drop_first());
    }
}

proof fn lemma_trim_end(s: Seq<char>)
    ensures
        trim_end(s).len() > 0 ==> !white(trim_end(s).last()) && trim_end(s)[0] == s[0],
    decreases s.len(),
{
    if s.len() > 0 && white(s.last()) {
        lemma_trim_end(s.drop_last());
    }
}

/// Trimming leaves a text alone that neither starts nor ends with whitespace.
pub proof fn lemma_trim_of_trimmed(s: Seq<char>)
    requires
        s.len() > 0 ==> !white(s[0]) && !white(s.last()),
    ensures
        trimmed(s) == s,
{
}

proof fn lemma_run_len_add(a: Seq<char>, b: Seq<char>, by: Separator)
    requires
        b.len() > 0 ==> by.parts(b[0]),
    ensures
        run_len(a + b, by) == run_len(a, by),
    decreases a.len(),
{
    if a.len() == 0 {
        assert(a + b =~= b);
    } else {
        assert((a + b).drop_first() =~= a.drop_first() + b);
        assert((a + b)[0] == a[0]);
        lemma_run_len_add(a.drop_first(), b, by);
    }
}

/// The runs of two texts, the second of which starts with a separator, are
/// those of their concatenation.
pub proof fn lemma_runs_add(a: Seq<char>, b: Seq<char>, by: Separator)
    requires
        b.len() > 0 ==> by.parts(b[0]),
    ensures
        runs(a + b, by) == runs(a, by) + runs(b, by),
    decreases a.len(),
{
    if a.len() == 0 {
        assert(a + b =~= b);
        assert(runs(a, by) + runs(b, by) =~= runs(b, by));
    } else if by.parts(a[0]) {
        assert((a + b).drop_first() =~= a.drop_first() + b);
        assert((a + b)[0] == a[0]);
        lemma_runs_add(a.drop_first(), b, by);
    } else {
        lemma_run_len_bounds(a, by);
        lemma_run_len_add(a, b, by);
        let n = run_len(a, by) as int;
        assert((a + b)[0] == a[0]);
        assert((a + b).take(n) =~= a.take(n));
        assert((a + b).skip(n) =~= a.skip(n) + b);
        lemma_runs_add(a.skip(n), b, by);
        assert(runs(a + b, by) =~= runs(a, by) + runs(b, by));
    }
}

/// A text without separators is one run.
pub proof fn lemma_single_run(s: Seq<char>, by: Separator)
    requires
        s.len() > 0,
        forall|i: int| 0 <= i < s.len() ==> !by.parts(#[trigger] s[i]),
    ensures
        runs(s, by) == seq![s],
{
    lemma_run_len(s, by, s.len() as int);
    assert(!by.parts(s[0]));
    assert(s.take(s.len() as int) =~= s);
    assert(s.skip(s.len() as int) =~= Seq::empty());
    assert(runs(Seq::<char>::empty(), by) =~= Seq::empty());
    assert(runs(s, by) =~= seq![s]);
}

/// How often `c` occurs in `s`.
pub open spec fn occurrences(s: Seq<char>, c: char) -> nat
    decreases s.len(),
{
    if s.len() == 0 {
        0
    } else {
        occurrences(s.drop_last(), c) + if s.last() == c {
            1nat
        } else {
            0
        }
    }
}

/// What does not occur in a text does not count.
pub proof fn lemma_no_occurrence(s: Seq<char>, c: char)
    requires
        !s.contains(c),
    ensures
        occurrences(s, c) == 0,
    decreases s.len(),
{
    if s.len() > 0 {
        assert(s[s.len() - 1] != c);
        assert forall|i: int| 0 <= i < s.drop_last().len() implies s.drop_last()[i] != c by {
            assert(s.drop_last()[i] == s[i]);
        }
        lemma_no_occurrence(s.drop_last(), c);
    }
}

/// What occurs in two texts occurs as often in one after the other.
pub proof fn lemma_occurrences_add(a: Seq<char>, b: Seq<char>, c: char)
    ensures
        occurrences(a + b, c) == occurrences(a, c) + occurrences(b, c),
    decreases b.len(),
{
    if b.len() == 0 {
        assert(a + b =~= a);
    } else {
        assert((a + b).drop_last() =~= a + b.drop_last());
        lemma_occurrences_add(a, b.drop_last(), c);
    }
}

/// A text without its trailing whitespace is the start of the text.
pub proof fn lemma_trim_end_is_a_start(s: Seq<char>)
    ensures
        trim_end(s).len() <= s.len(),
        trim_end(s) == s.take(trim_end(s).len() as int),
    decreases s.len(),
{
    if s.len() > 0 && white(s.last()) {
        lemma_trim_end_is_a_start(s.drop_last());
    }
}

/// The characters that count as whitespace.
pub proof fn law_whitespace(c: char)
    ensures
        white(c) <==> seq![
            '\t', '\n', '\u{b}', '\u{c}', '\r', ' ', '\u{85}', '\u{a0}', '\u{1680}', '\u{2000}',
            '\u{2001}', '\u{2002}', '\u{2003}', '\u{2004}', '\u{2005}', '\u{2006}', '\u{2007}',
            '\u{2008}', '\u{2009}', '\u{200a}', '\u{2028}', '\u{2029}', '\u{202f}', '\u{205f}',
            '\u{3000}',
        ].contains(c),
{
    let all = seq![
        '\t', '\n', '\u{b}', '\u{c}', '\r', ' ', '\u{85}', '\u{a0}', '\u{1680}', '\u{2000}',
        '\u{2001}', '\u{2002}', '\u{2003}', '\u{2004}', '\u{2005}', '\u{2006}', '\u{2007}',
        '\u{2008}', '\u{2009}', '\u{200a}', '\u{2028}', '\u{2029}', '\u{202f}', '\u{205f}',
        '\u{3000}',
    ];
    if white(c) {
        let n = c as int;
        let i: int = if n <= 0xd {
            n - 9
        } else if n == 0x20 {
            5
        } else if n == 0x85 {
            6
        } else if n == 0xa0 {
            7
        } else if n == 0x1680 {
            8
        } else if n <= 0x200a {
            9 + n - 0x2000
        } else if n <= 0x2029 {
            20 + n - 0x2028
        } else if n == 0x202f {
            22
        } else if n == 0x205f {
            23
        } else {
            24
        };
        assert(all[i] == c);
    }
}

/// Whether a text is nothing but whitespace.
pub open spec fn is_blank(s: Seq<char>) -> bool {
    forall|i: int| 0 <= i < s.len() ==> white(#[trigger] s[i])
}

proof fn lemma_trim_start_splits(s: Seq<char>)
    ensures
        trim_start(s).len() <= s.len(),
        is_blank(s.take(s.len() - trim_start(s).len())),
        s.skip(s.len() - trim_start(s).len()) == trim_start(s),
    decreases s.len(),
{
    if s.len() > 0 && white(s[0]) {
        let rest = s.drop_first();
        lemma_trim_start_splits(rest);
        let n = s.len() - trim_start(s).len();
        assert forall|i: int| 0 <= i < n implies white(#[trigger] s.take(n)[i]) by {
            if i > 0 {
                assert(rest.take(n - 1)[i - 1] == s[i]);
            }
        }
        assert(s.skip(n) =~= rest.skip(n - 1));
    } else {
        assert(s.skip(0) =~= s);
    }
}

proof fn lemma_trim_end_splits(s: Seq<char>)
    ensures
        trim_end(s).len() <= s.len(),
        trim_end(s) == s.take(trim_end(s).len() as int),
        is_blank(s.skip(trim_end(s).len() as int)),
    decreases s.len(),
{
    if s.len() > 0 && white(s.last()) {
        let rest = s.drop_last();
        lemma_trim_end_splits(rest);
        let n = trim_end(s).len() as int;
        assert forall|i: int| 0 <= i < s.len() - n implies white(#[trigger] s.skip(n)[i]) by {
            if i < s.len() - n - 1 {
                assert(rest.skip(n)[i] == s[n + i]);
            }
        }
    }
}

/// Trimming takes nothing but whitespace from the ends of a text, and leaves
/// none there.
pub proof fn law_trimming_takes_the_whitespace_at_the_ends(s: Seq<char>)
    ensures
        exists|head: Seq<char>, tail: Seq<char>|
            is_blank(head) && is_blank(tail) && s == #[trigger] (head + trimmed(s) + tail),
        trimmed(s).len() > 0 ==> !white(trimmed(s)[0]) && !white(trimmed(s).last()),
        exists|tail: Seq<char>| is_blank(tail) && s == #[trigger] (trim_end(s) + tail),
        trim_end(s).len() > 0 ==> !white(trim_end(s).last()),
{
    lemma_trimmed(s);
    lemma_trim_end(s);
    lemma_trim_start_splits(s);
    lemma_trim_end_splits(s);
    let mid = trim_start(s);
    lemma_trim_end_splits(mid);
    let head = s.take(s.len() - mid.len());
    let tail = mid.skip(trim_end(mid).len() as int);
    assert(s =~= head + trimmed(s) + tail);
    assert(s =~= trim_end(s) + s.skip(trim_end(s).len() as int));
}

/// What parts words, and what parts the names of a path.
pub proof fn law_separators(c: char)
    ensures
        Separator::White.parts(c) <==> white(c),
        Separator::Slash.parts(c) <==> c == '/',
{
}

/// Separators alone make no run.
proof fn lemma_no_runs(s: Seq<char>, by: Separator)
    requires
        forall|i: int| 0 <= i < s.len() ==> by.parts(#[trigger] s[i]),
    ensures
        runs(s, by) == Seq::<Seq<char>>::empty(),
    decreases s.len(),
{
    if s.len() > 0 {
        assert(by.parts(s[0]));
        let rest = s.drop_first();
        assert forall|i: int| 0 <= i < rest.len() implies by.parts(#[trigger] rest[i]) by {
            assert(rest[i] == s[i + 1]);
        }
        lemma_no_runs(rest, by);
    }
}

/// Separators make no run, what has none of them is one run, and the runs of
/// two texts with separators between them are those of the one and then those
/// of the other.
pub proof fn law_runs_stand_between_separators(
    a: Seq<char>,
    gap: Seq<char>,
    b: Seq<char>,
    by: Separator,
)
    requires
        gap.len() > 0,
        forall|i: int| 0 <= i < gap.len() ==> by.parts(#[trigger] gap[i]),
    ensures
        runs(gap, by) == Seq::<Seq<char>>::empty(),
        a.len() > 0 && (forall|i: int| 0 <= i < a.len() ==> !by.parts(#[trigger] a[i])) ==> runs(
            a,
            by,
        ) == seq![a],
        runs(a + gap + b, by) == runs(a, by) + runs(b, by),
        runs(Seq::<char>::empty(), by) == Seq::<Seq<char>>::empty(),
    decreases gap.len(),
{
    lemma_no_runs(gap, by);
    if a.len() > 0 && (forall|i: int| 0 <= i < a.len() ==> !by.parts(#[trigger] a[i])) {
        lemma_single_run(a, by);
    }
    assert(by.parts(gap[0]));
    assert(a + gap + b =~= a + (gap + b));
    assert((gap + b)[0] == gap[0]);
    lemma_runs_add(a, gap + b, by);
    lemma_leading_gap(gap, b, by);
}

proof fn lemma_leading_gap(gap: Seq<char>, b: Seq<char>, by: Separator)
    requires
        forall|i: int| 0 <= i < gap.len() ==> by.parts(#[trigger] gap[i]),
    ensures
        runs(gap + b, by) == runs(b, by),
    decreases gap.len(),
{
    if gap.len() == 0 {
        assert(gap + b =~= b);
    } else {
        let rest = gap.drop_first();
        assert(by.parts(gap[0]));
        assert((gap + b)[0] == gap[0]);
        assert((gap + b).drop_first() =~= rest + b);
        assert forall|i: int| 0 <= i < rest.len() implies by.parts(#[trigger] rest[i]) by {
            assert(rest[i] == gap[i + 1]);
        }
        lemma_leading_gap(rest, b, by);
    }
}

/// The words of two texts with whitespace between them are those of the one
/// and then those of the other; a text without whitespace is one word.
pub proof fn law_words_stand_between_whitespace(a: Seq<char>, gap: Seq<char>, b: Seq<char>)
    requires
        gap.len() > 0,
        is_blank(gap),
    ensures
        words(gap) == Seq::<Seq<char>>::empty(),
        a.len() > 0 && (forall|i: int| 0 <= i < a.len() ==> !white(#[trigger] a[i])) ==> words(a)
            == seq![a],
        words(a + gap + b) == words(a) + words(b),
{
    assert forall|i: int| 0 <= i < gap.len() implies Separator::White.parts(#[trigger] gap[i]) by {
        assert(white(gap[i]));
    }
    law_runs_stand_between_separators(a, gap, b, Separator::White);
    if a.len() > 0 && (forall|i: int| 0 <= i < a.len() ==> !white(#[trigger] a[i])) {
        lemma_single_run(a, Separator::White);
    }
}

/// Joining puts the separator between neighbours and nowhere else.
pub proof fn law_joining_parts_neighbours(a: Seq<Seq<char>>, b: Seq<Seq<char>>, sep: Seq<char>)
    ensures
        joined(Seq::<Seq<char>>::empty(), sep) == Seq::<char>::empty(),
        a.len() == 1 ==> joined(a, sep) == a[0],
        a.len() > 0 && b.len() > 0 ==> joined(a + b, sep) == joined(a, sep) + sep + joined(b, sep),
    decreases b.len(),
{
    if a.len() > 0 && b.len() > 0 {
        let all = a + b;
        assert(all.last() == b.last());
        if b.len() == 1 {
            assert(all.drop_last() =~= a);
            assert(b.last() == b[0]);
        } else {
            assert(all.drop_last() =~= a + b.drop_last());
            law_joining_parts_neighbours(a, b.drop_last(), sep);
            assert(joined(all, sep) =~= joined(a, sep) + sep + joined(b, sep));
        }
    }
}

/// So many copies of a text, and so many more, are as many as both together.
pub proof fn law_copies_add_up(s: Seq<char>, m: nat, n: nat)
    ensures
        repeated(s, 0) == Seq::<char>::empty(),
        repeated(s, 1) == s,
        repeated(s, m + n) == repeated(s, m) + repeated(s, n),
    decreases n,
{
    assert(repeated(s, 1) =~= repeated(s, 0) + s);
    assert(repeated(s, 1) =~= s);
    if n == 0 {
        assert(repeated(s, m) + repeated(s, 0) =~= repeated(s, m));
    } else {
        law_copies_add_up(s, m, (n - 1) as nat);
        assert(m + n - 1 == m + (n - 1) as nat);
        assert(repeated(s, m + n) =~= repeated(s, m) + repeated(s, n));
    }
}

/// A text ends in another exactly if it is something and then the other.
pub proof fn law_ending(s: Seq<char>, tail: Seq<char>)
    ensures
        ends_in(s, tail) <==> exists|head: Seq<char>| s == #[trigger] (head + tail),
{
    if ends_in(s, tail) {
        assert(s =~= s.take(s.len() - tail.len()) + tail);
    }
    if exists|head: Seq<char>| s == #[trigger] (head + tail) {
        let head = choose|head: Seq<char>| s == #[trigger] (head + tail);
        assert(s.skip(s.len() - tail.len()) =~= tail);
    }
}

/// Whether a text is nothing but copies of a character.
pub open spec fn is_all(s: Seq<char>, c: char) -> bool {
    forall|i: int| 0 <= i < s.len() ==> #[trigger] s[i] == c
}

/// Stripping takes the copies of the character at the front, all of them and
/// nothing else.
pub proof fn law_stripping_takes_the_front(s: Seq<char>, c: char)
    ensures
        exists|head: Seq<char>| is_all(head, c) && s == #[trigger] (head + strip_leading(s, c)),
        strip_leading(s, c).len() > 0 ==> strip_leading(s, c)[0] != c,
    decreases s.len(),
{
    let kept = strip_leading(s, c);
    if s.len() > 0 && s[0] == c {
        let rest = s.drop_first();
        law_stripping_takes_the_front(rest, c);
        let head = choose|head: Seq<char>| is_all(head, c) && rest == #[trigger] (head + kept);
        let more = seq![c] + head;
        assert forall|i: int| 0 <= i < more.len() implies #[trigger] more[i] == c by {
            if i > 0 {
                assert(more[i] == head[i - 1]);
            }
        }
        assert(is_all(more, c));
        assert(s =~= seq![c] + rest);
        assert(s =~= more + kept);
    } else {
        let none = Seq::<char>::empty();
        assert(is_all(none, c));
        assert(s =~= none + kept);
    }
}

/// The number that decimal digits stand for.
pub open spec fn number_of(s: Seq<char>) -> int
    decreases s.len(),
{
    if s.len() == 0 {
        0
    } else {
        10 * number_of(s.drop_last()) + (s.last() as int - '0' as int)
    }
}

/// The digits of a number stand for it; there is at least one, and none but
/// that of zero starts with a zero.
pub proof fn law_digits_stand_for_the_number(n: nat)
    ensures
        number_of(digits(n)) == n,
        digits(n).len() > 0,
        forall|i: int| 0 <= i < digits(n).len() ==> '0' <= #[trigger] digits(n)[i] <= '9',
        digits(n)[0] == '0' ==> n == 0 && digits(n).len() == 1,
    decreases n,
{
    if n < 10 {
        let d = digits(n);
        assert(d.drop_last() =~= Seq::empty());
        assert(number_of(d.drop_last()) == 0);
    } else {
        law_digits_stand_for_the_number(n / 10);
        let before = digits(n / 10);
        assert(digits(n).drop_last() =~= before);
        assert(digits(n)[0] == before[0]);
        assert forall|i: int| 0 <= i < digits(n).len() implies '0' <= #[trigger] digits(n)[i]
            <= '9' by {
            if i < before.len() {
                assert(digits(n)[i] == before[i]);
            }
        }
    }
}

/// A number in decimal is its digits, behind a minus sign where it is negative.
pub proof fn law_decimal_has_a_sign(n: int)
    ensures
        n >= 0 ==> number_of(decimal(n)) == n && decimal(n)[0] != '-',
        n < 0 ==> decimal(n)[0] == '-' && number_of(decimal(n).drop_first()) == -n,
{
    if n >= 0 {
        law_digits_stand_for_the_number(n as nat);
    } else {
        law_digits_stand_for_the_number((-n) as nat);
        assert(decimal(n).drop_first() =~= digits((-n) as nat));
    }
}

/// One text comes before another exactly if it is a beginning of it, or has the
/// smaller character where they first differ.
pub proof fn law_texts_are_ordered_by_their_first_difference(a: Seq<char>, b: Seq<char>)
    ensures
        text_order(a, b) == Order::Less <==> exists|i: int|
            0 <= i <= a.len() && i < b.len() && #[trigger] a.take(i) == b.take(i) && (i == a.len()
                || a[i] < b[i]),
        text_order(a, b) == Order::Equal <==> a == b,
        text_order(b, a) == text_order(a, b).flipped(),
{
    lemma_text_order_symmetric(a, b);
    if text_order(a, b) == Order::Less {
        lemma_first_difference(a, b);
    }
    if exists|i: int|
        0 <= i <= a.len() && i < b.len() && #[trigger] a.take(i) == b.take(i) && (i == a.len()
            || a[i] < b[i]) {
        let i = choose|i: int|
            0 <= i <= a.len() && i < b.len() && #[trigger] a.take(i) == b.take(i) && (i == a.len()
                || a[i] < b[i]);
        lemma_difference_decides(a, b, i);
    }
}

proof fn lemma_first_difference(a: Seq<char>, b: Seq<char>)
    requires
        text_order(a, b) == Order::Less,
    ensures
        exists|i: int|
            0 <= i <= a.len() && i < b.len() && #[trigger] a.take(i) == b.take(i) && (i == a.len()
                || a[i] < b[i]),
    decreases a.len(),
{
    if a.len() == 0 || a[0] < b[0] {
        assert(a.take(0) =~= b.take(0));
    } else {
        let x = a.drop_first();
        let y = b.drop_first();
        lemma_first_difference(x, y);
        let i = choose|i: int|
            0 <= i <= x.len() && i < y.len() && #[trigger] x.take(i) == y.take(i) && (i == x.len()
                || x[i] < y[i]);
        assert forall|k: int| 0 <= k < i + 1 implies a[k] == b[k] by {
            if k > 0 {
                assert(x.take(i)[k - 1] == y.take(i)[k - 1]);
            }
        }
        assert(a.take(i + 1) =~= b.take(i + 1));
    }
}

proof fn lemma_difference_decides(a: Seq<char>, b: Seq<char>, i: int)
    requires
        0 <= i <= a.len(),
        i < b.len(),
        a.take(i) == b.take(i),
        i == a.len() || a[i] < b[i],
    ensures
        text_order(a, b) == Order::Less,
    decreases i,
{
    if i > 0 {
        assert(a.take(i)[0] == b.take(i)[0]);
        let x = a.drop_first();
        let y = b.drop_first();
        assert forall|k: int| 0 <= k < i - 1 implies #[trigger] x[k] == y[k] by {
            assert(a.take(i)[k + 1] == b.take(i)[k + 1]);
            assert(a.take(i)[k + 1] == a[k + 1] && b.take(i)[k + 1] == b[k + 1]);
        }
        assert(x.take(i - 1) =~= y.take(i - 1));
        assert(a[0] == a.take(i)[0] && b[0] == b.take(i)[0]);
        lemma_difference_decides(x, y, i - 1);
    }
}

} // verus!
