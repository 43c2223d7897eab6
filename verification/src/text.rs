//! Text as sequences of characters: searching, trimming, splitting, padding
//! and writing numbers.

use vstd::prelude::*;

verus! {

/// `String::push` appends one character at the end of the string.
pub assume_specification[ String::push ](s: &mut String, c: char)
    ensures
        final(s)@ == old(s)@.push(c),
;

/// The views of the elements, in order.
pub open spec fn views<T: View>(s: Seq<T>) -> Seq<T::V> {
    Seq::new(s.len(), |i: int| s[i]@)
}

pub broadcast proof fn lemma_views_push<T: View>(s: Seq<T>, x: T)
    ensures
        #[trigger] views(s.push(x)) == views(s).push(x@),
{
    assert(views(s.push(x)) =~= views(s).push(x@));
}

// ---------------------------------------------------------------------------
// Specification
// ---------------------------------------------------------------------------

/// `part` occurs somewhere in `s`.
pub open spec fn occurs_in(part: Seq<char>, s: Seq<char>) -> bool {
    exists|i: int| #[trigger] occurs_at(part, s, i)
}

/// `part` occurs in `s` at position `i`.
pub open spec fn occurs_at(part: Seq<char>, s: Seq<char>, i: int) -> bool {
    &&& 0 <= i
    &&& i + part.len() <= s.len()
    &&& s.subrange(i, i + part.len()) == part
}

/// The characters with the Unicode property `White_Space`.
pub open spec fn is_white(c: char) -> bool {
    let n = c as u32;
    ||| 0x09 <= n <= 0x0d
    ||| n == 0x20
    ||| n == 0x85
    ||| n == 0xa0
    ||| n == 0x1680
    ||| 0x2000 <= n <= 0x200a
    ||| n == 0x2028
    ||| n == 0x2029
    ||| n == 0x202f
    ||| n == 0x205f
    ||| n == 0x3000
}

pub open spec fn trim_start(s: Seq<char>) -> Seq<char>
    decreases s.len(),
{
    if s.len() > 0 && is_white(s[0]) {
        trim_start(s.drop_first())
    } else {
        s
    }
}

pub open spec fn trim_end(s: Seq<char>) -> Seq<char>
    decreases s.len(),
{
    if s.len() > 0 && is_white(s.last()) {
        trim_end(s.drop_last())
    } else {
        s
    }
}

/// `s` without the white space at either end.
pub open spec fn trimmed(s: Seq<char>) -> Seq<char> {
    trim_end(trim_start(s))
}

pub open spec fn ascii_lower(c: char) -> char {
    if 'A' <= c <= 'Z' {
        ((c as u8) + 32) as char
    } else {
        c
    }
}

/// Equal but for the case of ASCII letters.
pub open spec fn same_ignoring_case(a: Seq<char>, b: Seq<char>) -> bool {
    &&& a.len() == b.len()
    &&& forall|i: int| 0 <= i < a.len() ==> ascii_lower(#[trigger] a[i]) == ascii_lower(b[i])
}

/// The part of `s` before the first `stop`, or all of it where there is none.
pub open spec fn before(s: Seq<char>, stop: char) -> Seq<char>
    decreases s.len(),
{
    if s.len() == 0 || s[0] == stop {
        Seq::empty()
    } else {
        seq![s[0]] + before(s.drop_first(), stop)
    }
}

/// A line feed ends a line; a carriage return just before it belongs to the
/// line's end. Text after the last line feed is a line if there is any.
pub open spec fn lines_of(s: Seq<char>) -> Seq<Seq<char>>
    decreases s.len(),
{
    if s.len() == 0 {
        Seq::empty()
    } else {
        let line = before(s, '\n');
        if line.len() < s.len() {
            seq![without_cr(line)] + lines_of(s.skip(line.len() as int + 1))
        } else {
            seq![line]
        }
    }
}

pub open spec fn without_cr(line: Seq<char>) -> Seq<char> {
    if line.len() > 0 && line.last() == '\r' {
        line.drop_last()
    } else {
        line
    }
}

/// The items one after another, `sep` between each two.
pub open spec fn joined(items: Seq<Seq<char>>, sep: Seq<char>) -> Seq<char>
    decreases items.len(),
{
    if items.len() == 0 {
        Seq::empty()
    } else if items.len() == 1 {
        items[0]
    } else {
        joined(items.drop_last(), sep) + sep + items.last()
    }
}

pub open spec fn spaces(n: int) -> Seq<char> {
    Seq::new(if n > 0 { n as nat } else { 0 }, |i: int| ' ')
}

/// `s` moved right in a field of `width` characters.
pub open spec fn pad_left(s: Seq<char>, width: nat) -> Seq<char> {
    spaces(width - s.len()) + s
}

/// `s` at the left of a field of `width` characters.
pub open spec fn pad_right(s: Seq<char>, width: nat) -> Seq<char> {
    s + spaces(width - s.len())
}

pub open spec fn digit_char(d: nat) -> char {
    (48 + d) as char
}

/// `n` in decimal.
pub open spec fn decimal(n: nat) -> Seq<char>
    decreases n,
{
    if n < 10 {
        seq![digit_char(n)]
    } else {
        decimal(n / 10).push(digit_char(n % 10))
    }
}

/// `n` in decimal, with a sign where it is negative.
pub open spec fn signed_decimal(n: int) -> Seq<char> {
    if n < 0 {
        seq!['-'] + decimal((-n) as nat)
    } else {
        decimal(n as nat)
    }
}

// ---------------------------------------------------------------------------
// Lemmas
// ---------------------------------------------------------------------------

/// `before` is the longest start of the text that does not hold the character.
pub proof fn lemma_before(s: Seq<char>, stop: char)
    ensures
        before(s, stop).len() <= s.len(),
        before(s, stop) == s.take(before(s, stop).len() as int),
        forall|i: int| 0 <= i < before(s, stop).len() ==> #[trigger] s[i] != stop,
        before(s, stop).len() < s.len() ==> s[before(s, stop).len() as int] == stop,
    decreases s.len(),
{
    if s.len() > 0 && s[0] != stop {
        let rest = s.drop_first();
        lemma_before(rest, stop);
        let n = before(rest, stop).len();
        assert(before(s, stop) =~= s.take(n as int + 1));
        assert forall|i: int| 0 <= i < n + 1 implies #[trigger] s[i] != stop by {
            if i > 0 {
                assert(s[i] == rest[i - 1]);
            }
        }
        if n + 1 < s.len() {
            assert(s[n as int + 1] == rest[n as int]);
        }
    } else {
        assert(before(s, stop) =~= s.take(0));
    }
}

/// The first occurrence fixes what comes before it.
pub proof fn lemma_before_at(s: Seq<char>, stop: char, n: int)
    requires
        0 <= n <= s.len(),
        forall|i: int| 0 <= i < n ==> #[trigger] s[i] != stop,
        n < s.len() ==> s[n] == stop,
    ensures
        before(s, stop) == s.take(n),
{
    lemma_before(s, stop);
    let m = before(s, stop).len() as int;
    if m < n {
        assert(s[m] == stop);
    } else if n < m {
        assert(s[n] != stop);
    }
}

/// A part of one of two texts is a part of the two put together.
pub proof fn lemma_occurs_in_concat(part: Seq<char>, a: Seq<char>, b: Seq<char>)
    requires
        occurs_in(part, a) || occurs_in(part, b),
    ensures
        occurs_in(part, a + b),
{
    if occurs_in(part, a) {
        let i = choose|i: int| #[trigger] occurs_at(part, a, i);
        assert((a + b).subrange(i, i + part.len()) =~= a.subrange(i, i + part.len()));
        assert(occurs_at(part, a + b, i));
    } else {
        let i = choose|i: int| #[trigger] occurs_at(part, b, i);
        assert((a + b).subrange(a.len() + i, a.len() + i + part.len()) =~= b.subrange(
            i,
            i + part.len(),
        ));
        assert(occurs_at(part, a + b, a.len() + i));
    }
}

// ---------------------------------------------------------------------------
// Code
// ---------------------------------------------------------------------------

pub fn chars_of(s: &str) -> (r: Vec<char>)
    ensures
        r@ == s@,
{
    let mut out: Vec<char> = Vec::new();
    for c in it: s.chars()
        invariant
            it.seq() == s@,
            out@ == s@.take(it.index() as int),
    {
        out.push(c);
    }
    out
}

pub fn string_of(chars: &Vec<char>, from: usize, to: usize) -> (r: String)
    requires
        from <= to <= chars.len(),
    ensures
        r@ == chars@.subrange(from as int, to as int),
{
    let mut out = String::new();
    for i in from..to
        invariant
            from <= to <= chars.len(),
            out@ == chars@.subrange(from as int, i as int),
    {
        out.push(chars[i]);
    }
    out
}

pub fn text_is(s: &String, t: &str) -> (r: bool)
    ensures
        r == (s@ == t@),
{
    *s == t.to_owned()
}

/// Whether `s` is one of the texts.
pub fn one_of(s: &String, texts: &[&'static str]) -> (r: bool)
    ensures
        r == exists|i: int| 0 <= i < texts@.len() && s@ == (#[trigger] texts@[i])@,
{
    for i in 0..texts.len()
        invariant
            forall|j: int| 0 <= j < i ==> s@ != (#[trigger] texts@[j])@,
    {
        if text_is(s, texts[i]) {
            return true;
        }
    }
    false
}

fn chars_at(chars: &Vec<char>, part: &Vec<char>, at: usize) -> (r: bool)
    requires
        at + part.len() <= chars.len(),
    ensures
        r == occurs_at(part@, chars@, at as int),
{
    let n = part.len();
    for i in 0..n
        invariant
            n == part.len(),
            at + n <= chars.len(),
            forall|j: int| 0 <= j < i ==> part@[j] == chars@[at + j],
    {
        if chars[at + i] != part[i] {
            assert(chars@.subrange(at as int, at + part.len())[i as int] != part@[i as int]);
            return false;
        }
    }
    assert(chars@.subrange(at as int, at + part.len()) =~= part@);
    true
}

pub fn starts_with(s: &str, part: &str) -> (r: bool)
    ensures
        r == part@.is_prefix_of(s@),
{
    let chars = chars_of(s);
    let part = chars_of(part);
    if part.len() > chars.len() {
        return false;
    }
    chars_at(&chars, &part, 0)
}

pub fn ends_with(s: &str, part: &str) -> (r: bool)
    ensures
        r == part@.is_suffix_of(s@),
{
    let chars = chars_of(s);
    let part = chars_of(part);
    if part.len() > chars.len() {
        return false;
    }
    chars_at(&chars, &part, chars.len() - part.len())
}

pub fn contains(s: &str, part: &str) -> (r: bool)
    ensures
        r == occurs_in(part@, s@),
{
    let chars = chars_of(s);
    let wanted = chars_of(part);
    if wanted.len() > chars.len() {
        return false;
    }
    let last: usize = chars.len() - wanted.len();
    let mut i: usize = 0;
    while i <= last
        invariant
            chars@ == s@,
            wanted@ == part@,
            last == chars.len() - wanted.len(),
            i <= last + 1,
            forall|j: int| 0 <= j < i ==> !#[trigger] occurs_at(wanted@, chars@, j),
        decreases last + 1 - i,
    {
        if chars_at(&chars, &wanted, i) {
            return true;
        }
        if i == last {
            return false;
        }
        i = i + 1;
    }
    false
}

pub fn white(c: char) -> (r: bool)
    ensures
        r == is_white(c),
{
    let n = c as u32;
    (0x09 <= n && n <= 0x0d) || n == 0x20 || n == 0x85 || n == 0xa0 || n == 0x1680 || (0x2000 <= n
        && n <= 0x200a) || n == 0x2028 || n == 0x2029 || n == 0x202f || n == 0x205f || n == 0x3000
}

pub fn trim(s: &str) -> (r: String)
    ensures
        r@ == trimmed(s@),
{
    let chars = chars_of(s);
    let n = chars.len();
    let mut i: usize = 0;
    assert(chars@.skip(0) =~= chars@);
    while i < n && white(chars[i])
        invariant
            n == chars.len(),
            i <= n,
            trim_start(chars@) == trim_start(chars@.skip(i as int)),
        decreases n - i,
    {
        assert(chars@.skip(i as int).drop_first() =~= chars@.skip(i + 1));
        i = i + 1;
    }
    assert(trim_start(chars@) == chars@.skip(i as int));
    let mut j: usize = n;
    assert(chars@.subrange(i as int, j as int) =~= chars@.skip(i as int));
    while i < j && white(chars[j - 1])
        invariant
            n == chars.len(),
            i <= j <= n,
            trimmed(chars@) == trim_end(chars@.subrange(i as int, j as int)),
        decreases j,
    {
        assert(chars@.subrange(i as int, j as int).drop_last() =~= chars@.subrange(
            i as int,
            j - 1,
        ));
        j = j - 1;
    }
    string_of(&chars, i, j)
}

pub fn lower(c: char) -> (r: char)
    ensures
        r == ascii_lower(c),
{
    if 'A' <= c && c <= 'Z' {
        ((c as u8) + 32) as char
    } else {
        c
    }
}

pub fn eq_ignoring_case(a: &str, b: &str) -> (r: bool)
    ensures
        r == same_ignoring_case(a@, b@),
{
    let left = chars_of(a);
    let right = chars_of(b);
    if left.len() != right.len() {
        return false;
    }
    for i in 0..left.len()
        invariant
            left@ == a@,
            right@ == b@,
            left.len() == right.len(),
            forall|j: int| 0 <= j < i ==> ascii_lower(#[trigger] a@[j]) == ascii_lower(b@[j]),
    {
        if lower(left[i]) != lower(right[i]) {
            assert(ascii_lower(a@[i as int]) != ascii_lower(b@[i as int]));
            return false;
        }
    }
    true
}

/// The position of the first `stop` at or after `from`, or the length.
fn find(chars: &Vec<char>, stop: char, from: usize) -> (r: usize)
    requires
        from <= chars.len(),
    ensures
        from <= r <= chars.len(),
        before(chars@.skip(from as int), stop) == chars@.subrange(from as int, r as int),
{
    let mut i = from;
    while i < chars.len() && chars[i] != stop
        invariant
            from <= i <= chars.len(),
            forall|j: int| from <= j < i ==> chars@[j] != stop,
        decreases chars.len() - i,
    {
        i = i + 1;
    }
    proof {
        let tail = chars@.skip(from as int);
        assert forall|j: int| 0 <= j < i - from implies #[trigger] tail[j] != stop by {
            assert(tail[j] == chars@[from + j]);
        }
        lemma_before_at(tail, stop, i - from);
        assert(tail.take(i - from) =~= chars@.subrange(from as int, i as int));
    }
    i
}

pub fn text_before(s: &str, stop: char) -> (r: String)
    ensures
        r@ == before(s@, stop),
{
    let chars = chars_of(s);
    let end = find(&chars, stop, 0);
    assert(chars@.skip(0) =~= chars@);
    string_of(&chars, 0, end)
}

pub fn lines(s: &str) -> (r: Vec<String>)
    ensures
        views(r@) == lines_of(s@),
{
    let chars = chars_of(s);
    let n = chars.len();
    let mut out: Vec<String> = Vec::new();
    let mut i: usize = 0;
    assert(chars@.skip(0) =~= chars@);
    assert(views(out@) + lines_of(chars@) =~= lines_of(chars@));
    while i < n
        invariant
            n == chars.len(),
            i <= n,
            views(out@) + lines_of(chars@.skip(i as int)) == lines_of(chars@),
        decreases n - i,
    {
        let end = find(&chars, '\n', i);
        let ghost tail = chars@.skip(i as int);
        let ghost line = chars@.subrange(i as int, end as int);
        let ghost done = views(out@);
        proof {
            lemma_before(tail, '\n');
        }
        if end < n {
            let stop: usize = if end > i && chars[end - 1] == '\r' {
                end - 1
            } else {
                end
            };
            assert(chars@.subrange(i as int, stop as int) =~= without_cr(line));
            out.push(string_of(&chars, i, stop));
            assert(views(out@) =~= done.push(without_cr(line)));
            assert(tail.skip(line.len() as int + 1) =~= chars@.skip(end + 1));
            assert(done + (seq![without_cr(line)] + lines_of(chars@.skip(end + 1))) =~= done.push(
                without_cr(line),
            ) + lines_of(chars@.skip(end + 1)));
            i = end + 1;
        } else {
            out.push(string_of(&chars, i, end));
            assert(views(out@) =~= done.push(line));
            assert(chars@.skip(n as int).len() == 0);
            assert(views(out@) + lines_of(chars@.skip(n as int)) =~= done + seq![line]);
            i = n;
        }
    }
    assert(chars@.skip(i as int).len() == 0);
    assert(views(out@) + lines_of(chars@.skip(i as int)) =~= views(out@));
    out
}

pub fn join(items: &Vec<String>, sep: &str) -> (r: String)
    ensures
        r@ == joined(views(items@), sep@),
{
    let mut out = String::new();
    let ghost all = views(items@);
    for i in 0..items.len()
        invariant
            all == views(items@),
            out@ == joined(all.take(i as int), sep@),
    {
        assert(all.take(i + 1).drop_last() =~= all.take(i as int));
        if i > 0 {
            out.append(sep);
        }
        out.append(items[i].as_str());
        if i == 0 {
            assert(all.take(1)[0] == items@[0]@);
            assert(Seq::<char>::empty() + items@[0]@ =~= items@[0]@);
        }
    }
    assert(all.take(items.len() as int) =~= all);
    out
}

fn blanks(n: usize) -> (r: String)
    ensures
        r@ == spaces(n as int),
{
    let mut out = String::new();
    for i in 0..n
        invariant
            out@ =~= spaces(i as int),
    {
        out.push(' ');
    }
    out
}

pub fn right_aligned(s: &str, width: usize) -> (r: String)
    ensures
        r@ == pad_left(s@, width as nat),
{
    let len = chars_of(s).len();
    let mut out = blanks(
        if len < width {
            width - len
        } else {
            0
        },
    );
    assert(out@ =~= spaces(width - len));
    out.append(s);
    out
}

pub fn left_aligned(s: &str, width: usize) -> (r: String)
    ensures
        r@ == pad_right(s@, width as nat),
{
    let len = chars_of(s).len();
    let pad = blanks(
        if len < width {
            width - len
        } else {
            0
        },
    );
    assert(pad@ =~= spaces(width - len));
    let mut out = s.to_owned();
    out.append(pad.as_str());
    out
}

pub fn number(n: u128) -> (r: String)
    ensures
        r@ == decimal(n as nat),
    decreases n,
{
    if n < 10 {
        let mut out = String::new();
        out.push((48 + n as u8) as char);
        assert(out@ =~= seq![digit_char(n as nat)]);
        out
    } else {
        let mut out = number(n / 10);
        out.push((48 + (n % 10) as u8) as char);
        out
    }
}

pub fn signed_number(n: i32) -> (r: String)
    ensures
        r@ == signed_decimal(n as int),
{
    if n < 0 {
        let mut out = String::new();
        out.push('-');
        out.append(number((-(n as i64)) as u128).as_str());
        assert(out@ =~= seq!['-'] + decimal((-n) as nat));
        out
    } else {
        number(n as u128)
    }
}

// ---------------------------------------------------------------------------
// Laws
// ---------------------------------------------------------------------------

/// The number that a row of digits stands for.
pub open spec fn digits_value(s: Seq<char>) -> int
    decreases s.len(),
{
    if s.len() == 0 {
        0
    } else {
        10 * digits_value(s.drop_last()) + (s.last() as int - '0' as int)
    }
}

/// A number is written in digits, stands for itself, and starts with no zero
/// unless it is zero.
pub proof fn a_number_is_written_in_digits(n: nat)
    ensures
        digits_value(decimal(n)) == n,
        decimal(n).len() > 0,
        forall|i: int| 0 <= i < decimal(n).len() ==> '0' <= #[trigger] decimal(n)[i] <= '9',
        decimal(n)[0] == '0' ==> n == 0,
    decreases n,
{
    if n >= 10 {
        a_number_is_written_in_digits(n / 10);
        let front = decimal(n / 10);
        let all = front.push(digit_char(n % 10));
        assert(all.drop_last() =~= front);
        assert forall|i: int| 0 <= i < all.len() implies '0' <= #[trigger] all[i] <= '9' by {
            if i < front.len() {
                assert(all[i] == front[i]);
            }
        }
        assert(all[0] == front[0]);
    } else {
        let one = seq![digit_char(n)];
        assert(digits_value(one.drop_last()) == 0);
        assert(digits_value(one) == n);
    }
}

/// A sign stands in front of negative numbers only.
pub proof fn a_sign_marks_negative_numbers(n: int)
    ensures
        n >= 0 ==> signed_decimal(n) == decimal(n as nat),
        n < 0 ==> signed_decimal(n)[0] == '-' && signed_decimal(n).skip(1) == decimal((-n) as nat),
{
    if n < 0 {
        assert(signed_decimal(n).skip(1) =~= decimal((-n) as nat));
    }
}

/// What is trimmed off either end is white space, and no more of it is left there.
pub proof fn white_space_is_trimmed_off(s: Seq<char>) -> (at: (int, int))
    ensures
        0 <= at.0 <= at.1 <= s.len(),
        trimmed(s) == s.subrange(at.0, at.1),
        forall|i: int| 0 <= i < at.0 ==> is_white(#[trigger] s[i]),
        forall|i: int| at.1 <= i < s.len() ==> is_white(#[trigger] s[i]),
        trimmed(s).len() > 0 ==> !is_white(trimmed(s)[0]) && !is_white(trimmed(s).last()),
{
    let from = lemma_trim_start(s);
    let rest = s.skip(from);
    let to = lemma_trim_end(rest);
    assert(rest.take(to) =~= s.subrange(from, from + to));
    assert forall|i: int| from + to <= i < s.len() implies is_white(#[trigger] s[i]) by {
        assert(s[i] == rest[i - from]);
    }
    if to > 0 {
        assert(trimmed(s)[0] == rest[0]);
    }
    (from, from + to)
}

proof fn lemma_trim_start(s: Seq<char>) -> (from: int)
    ensures
        0 <= from <= s.len(),
        trim_start(s) == s.skip(from),
        forall|i: int| 0 <= i < from ==> is_white(#[trigger] s[i]),
        from < s.len() ==> !is_white(s[from]),
    decreases s.len(),
{
    if s.len() > 0 && is_white(s[0]) {
        let rest = s.drop_first();
        let from = lemma_trim_start(rest);
        assert(rest.skip(from) =~= s.skip(from + 1));
        assert forall|i: int| 0 <= i < from + 1 implies is_white(#[trigger] s[i]) by {
            if i > 0 {
                assert(s[i] == rest[i - 1]);
            }
        }
        if from < rest.len() {
            assert(s[from + 1] == rest[from]);
        }
        from + 1
    } else {
        assert(s.skip(0) =~= s);
        0
    }
}

proof fn lemma_trim_end(s: Seq<char>) -> (to: int)
    ensures
        0 <= to <= s.len(),
        trim_end(s) == s.take(to),
        forall|i: int| to <= i < s.len() ==> is_white(#[trigger] s[i]),
        to > 0 ==> !is_white(s[to - 1]),
    decreases s.len(),
{
    if s.len() > 0 && is_white(s.last()) {
        let front = s.drop_last();
        let to = lemma_trim_end(front);
        assert(front.take(to) =~= s.take(to));
        assert forall|i: int| to <= i < s.len() implies is_white(#[trigger] s[i]) by {
            if i < front.len() {
                assert(s[i] == front[i]);
            }
        }
        to
    } else {
        assert(s.take(s.len() as int) =~= s);
        s.len() as int
    }
}

/// White space is what Unicode calls so: twenty-five characters.
pub proof fn white_space_is_unicodes(c: char)
    ensures
        is_white(c) <==> (c == '\t' || c == '\n' || c == '\u{b}' || c == '\u{c}' || c == '\r' || c
            == ' ' || c == '\u{85}' || c == '\u{a0}' || c == '\u{1680}' || '\u{2000}' <= c
            <= '\u{200a}' || c == '\u{2028}' || c == '\u{2029}' || c == '\u{202f}' || c
            == '\u{205f}' || c == '\u{3000}'),
{
}

/// Two texts are the same but for case where each character is the same or the
/// other case of one ASCII letter.
pub proof fn case_is_that_of_ascii_letters(a: Seq<char>, b: Seq<char>)
    ensures
        same_ignoring_case(a, b) <==> a.len() == b.len() && forall|i: int|
            0 <= i < a.len() ==> {
                ||| #[trigger] a[i] == b[i]
                ||| 'A' <= a[i] <= 'Z' && b[i] as int == a[i] as int + 32
                ||| 'A' <= b[i] <= 'Z' && a[i] as int == b[i] as int + 32
            },
{
    if a.len() == b.len() {
        assert forall|i: int| 0 <= i < a.len() implies (ascii_lower(#[trigger] a[i]) == ascii_lower(
            b[i],
        ) <==> {
            ||| a[i] == b[i]
            ||| 'A' <= a[i] <= 'Z' && b[i] as int == a[i] as int + 32
            ||| 'A' <= b[i] <= 'Z' && a[i] as int == b[i] as int + 32
        }) by {
            lemma_lower(a[i]);
            lemma_lower(b[i]);
        }
    }
}

proof fn lemma_lower(c: char)
    ensures
        ascii_lower(c) as int == if 'A' <= c <= 'Z' {
            c as int + 32
        } else {
            c as int
        },
{
}

/// A line feed ends a line, and so does a carriage return with a line feed; the
/// rest of the text is lines of its own. What no line feed ends is one line.
pub proof fn line_feeds_end_lines(line: Seq<char>, rest: Seq<char>)
    requires
        !line.contains('\n'),
    ensures
        line.len() == 0 || line.last() != '\r' ==> lines_of(line + seq!['\n'] + rest) == seq![line]
            + lines_of(rest),
        lines_of(line + seq!['\r', '\n'] + rest) == seq![line] + lines_of(rest),
        line.len() > 0 ==> lines_of(line) == seq![line],
        lines_of(Seq::empty()) == Seq::<Seq<char>>::empty(),
{
    let s = line + seq!['\n'] + rest;
    assert forall|i: int| 0 <= i < line.len() implies #[trigger] line[i] != '\n' by {
        assert(line.contains(line[i]));
    }
    assert forall|i: int| 0 <= i < line.len() implies #[trigger] s[i] != '\n' by {
        assert(s[i] == line[i]);
    }
    lemma_before_at(s, '\n', line.len() as int);
    assert(s.take(line.len() as int) =~= line);
    assert(s.skip(line.len() as int + 1) =~= rest);
    let t = line + seq!['\r', '\n'] + rest;
    let longer = line.push('\r');
    assert forall|i: int| 0 <= i < longer.len() implies #[trigger] t[i] != '\n' by {
        assert(t[i] == longer[i]);
        if i < line.len() {
            assert(longer[i] == line[i]);
        }
    }
    lemma_before_at(t, '\n', longer.len() as int);
    assert(t.take(longer.len() as int) =~= longer);
    assert(t.skip(longer.len() as int + 1) =~= rest);
    assert(longer.drop_last() =~= line);
    lemma_before_at(line, '\n', line.len() as int);
    assert(line.take(line.len() as int) =~= line);
}

/// Texts are joined one behind the other, with the separator between each two.
pub proof fn a_separator_stands_between_two(items: Seq<Seq<char>>, item: Seq<char>, sep: Seq<char>)
    ensures
        joined(Seq::empty(), sep) == Seq::<char>::empty(),
        joined(seq![item], sep) == item,
        items.len() > 0 ==> joined(items.push(item), sep) == joined(items, sep) + sep + item,
{
    assert(items.push(item).drop_last() =~= items);
}

/// A field is as wide as asked for, or as wide as its text where that is wider;
/// the text stands at one end of it and blanks at the other.
pub proof fn blanks_fill_a_field(s: Seq<char>, width: nat)
    ensures
        pad_left(s, width).len() == if s.len() < width {
            width
        } else {
            s.len()
        },
        pad_right(s, width).len() == pad_left(s, width).len(),
        s.is_suffix_of(pad_left(s, width)),
        s.is_prefix_of(pad_right(s, width)),
        forall|i: int|
            0 <= i < pad_left(s, width).len() - s.len() ==> #[trigger] pad_left(s, width)[i] == ' ',
        forall|i: int|
            s.len() <= i < pad_right(s, width).len() ==> #[trigger] pad_right(s, width)[i] == ' ',
{
    let left = pad_left(s, width);
    assert(left.subrange(left.len() - s.len(), left.len() as int) =~= s);
    assert(pad_right(s, width).take(s.len() as int) =~= s);
}

/// A part occurs in a text that has it between something ahead of it and something
/// behind it, and in no other.
pub proof fn a_part_stands_between_the_rest(part: Seq<char>, s: Seq<char>)
    ensures
        forall|ahead: Seq<char>, behind: Seq<char>|
            s == #[trigger] (ahead + part + behind) ==> occurs_in(part, s),
        occurs_in(part, s) ==> exists|ahead: Seq<char>, behind: Seq<char>|
            s == #[trigger] (ahead + part + behind),
{
    assert forall|ahead: Seq<char>, behind: Seq<char>|
        s == #[trigger] (ahead + part + behind) implies occurs_in(part, s) by {
        let i = ahead.len() as int;
        assert(s.subrange(i, i + part.len()) =~= part);
        assert(occurs_at(part, s, i));
    }
    if occurs_in(part, s) {
        let i = choose|i: int| #[trigger] occurs_at(part, s, i);
        let ahead = s.take(i);
        let behind = s.skip(i + part.len());
        assert(s =~= ahead + part + behind);
    }
}

/// What stands before a character is what there is up to its first occurrence, and
/// everything where it does not occur.
pub proof fn text_ends_before_the_first_stop(head: Seq<char>, stop: char, rest: Seq<char>)
    requires
        !head.contains(stop),
    ensures
        before(head + seq![stop] + rest, stop) == head,
        before(head, stop) == head,
{
    let s = head + seq![stop] + rest;
    assert forall|i: int| 0 <= i < head.len() implies #[trigger] head[i] != stop by {
        assert(head.contains(head[i]));
    }
    assert forall|i: int| 0 <= i < head.len() implies #[trigger] s[i] != stop by {
        assert(s[i] == head[i]);
    }
    lemma_before_at(s, stop, head.len() as int);
    assert(s.take(head.len() as int) =~= head);
    lemma_before_at(head, stop, head.len() as int);
    assert(head.take(head.len() as int) =~= head);
}

} // verus!
