//! Character-level text handling shared by the assembler front end and the
//! debug shell: whitespace, ASCII case folding, searching, trimming and
//! decimal numbers, each as a mathematical definition over `Seq<char>` and an
//! executable routine over a range of a character buffer.
use vstd::prelude::*;

verus! {

/// `String::push` of the standard library appends the character `ch`: the
/// text of the string afterwards is its text before with `ch` at the end.
/// This is taken from the documentation of the standard library and is not
/// proved here.
pub assume_specification[ String::push ](s: &mut String, ch: char)
    ensures
        final(s)@ == old(s)@.push(ch),
;

/// The characters that Unicode classes as `White_Space`.
pub open spec fn is_whitespace_char(c: char) -> bool {
    let n = c as u32;
    ||| 0x09 <= n <= 0x0D
    ||| n == 0x20
    ||| n == 0x85
    ||| n == 0xA0
    ||| n == 0x1680
    ||| 0x2000 <= n <= 0x200A
    ||| n == 0x2028
    ||| n == 0x2029
    ||| n == 0x202F
    ||| n == 0x205F
    ||| n == 0x3000
}

/// `c` folded to upper case if it is an ASCII lower-case letter, else `c`.
pub open spec fn ascii_upper_char(c: char) -> char {
    if 'a' <= c <= 'z' {
        ((c as u32 - 32) as u8) as char
    } else {
        c
    }
}

/// `s` with every ASCII lower-case letter folded to upper case.
pub open spec fn ascii_upper(s: Seq<char>) -> Seq<char> {
    Seq::new(s.len(), |i: int| ascii_upper_char(s[i]))
}

/// The least index of `s` that holds `c`, or `s.len()` if none does.
pub open spec fn index_of(s: Seq<char>, c: char) -> int
    decreases s.len(),
{
    if s.len() == 0 || s[0] == c {
        0
    } else {
        1 + index_of(s.drop_first(), c)
    }
}

/// `s` without its leading whitespace.
pub open spec fn trim_start(s: Seq<char>) -> Seq<char>
    decreases s.len(),
{
    if s.len() > 0 && is_whitespace_char(s[0]) {
        trim_start(s.drop_first())
    } else {
        s
    }
}

/// `s` without its trailing whitespace.
pub open spec fn trim_end(s: Seq<char>) -> Seq<char>
    decreases s.len(),
{
    if s.len() > 0 && is_whitespace_char(s.last()) {
        trim_end(s.drop_last())
    } else {
        s
    }
}

/// `s` without its leading and trailing whitespace.
pub open spec fn trim(s: Seq<char>) -> Seq<char> {
    trim_end(trim_start(s))
}

/// Whether `c` is one of the decimal digits `0` to `9`.
pub open spec fn is_digit_char(c: char) -> bool {
    '0' <= c <= '9'
}

/// Whether `s` holds decimal digits only.
pub open spec fn all_digits(s: Seq<char>) -> bool {
    forall|i: int| 0 <= i < s.len() ==> is_digit_char(#[trigger] s[i])
}

/// The number that the decimal digits `s` write, most significant first.
pub open spec fn digits_value(s: Seq<char>) -> nat
    decreases s.len(),
{
    if s.len() == 0 {
        0
    } else {
        (digits_value(s.drop_last()) * 10 + (s.last() as u32 - '0' as u32)) as nat
    }
}

/// What is left of `s` once one leading `+` sign, if any, is taken away.
pub open spec fn unsigned_digits(s: Seq<char>) -> Seq<char> {
    if s.len() > 0 && s[0] == '+' {
        s.drop_first()
    } else {
        s
    }
}

/// The unsigned decimal number written by `s`, if `s` is one: an optional
/// `+` sign followed by at least one decimal digit and nothing else.
pub open spec fn parse_decimal(s: Seq<char>) -> Option<nat> {
    let digits = unsigned_digits(s);
    if digits.len() > 0 && all_digits(digits) {
        Some(digits_value(digits))
    } else {
        None
    }
}

/// `parse_decimal` limited to the numbers up to `max`.
pub open spec fn parse_bounded(s: Seq<char>, max: nat) -> Option<nat> {
    match parse_decimal(s) {
        Some(n) if n <= max => Some(n),
        _ => None,
    }
}

/// Whether Unicode classes `c` as `White_Space`.
pub fn is_whitespace(c: char) -> (b: bool)
    ensures
        b == is_whitespace_char(c),
{
    let n: u32 = c as u32;
    (0x09 <= n && n <= 0x0D) || n == 0x20 || n == 0x85 || n == 0xA0 || n == 0x1680 || (0x2000 <= n
        && n <= 0x200A) || n == 0x2028 || n == 0x2029 || n == 0x202F || n == 0x205F || n == 0x3000
}

/// `c` folded to upper case if it is an ASCII lower-case letter, else `c`.
pub fn to_ascii_upper(c: char) -> (r: char)
    ensures
        r == ascii_upper_char(c),
{
    if 'a' <= c && c <= 'z' {
        let n: u32 = c as u32;
        let b: u8 = (n - 32) as u8;
        b as char
    } else {
        c
    }
}

/// The characters of `s`, in order.
pub fn to_chars(s: &str) -> (chars: Vec<char>)
    ensures
        chars@ == s@,
{
    let mut chars: Vec<char> = Vec::new();
    for c in it: s.chars()
        invariant
            chars@ == it.seq().take(it.index() as int),
            it.seq() == s@,
    {
        chars.push(c);
    }
    chars
}

/// The string made of `chars[start..end]`.
pub fn string_of(chars: &Vec<char>, start: usize, end: usize) -> (s: String)
    requires
        start <= end <= chars.len(),
    ensures
        s@ == chars@.subrange(start as int, end as int),
{
    let mut s = String::new();
    let mut i: usize = start;
    while i < end
        invariant
            start <= i <= end <= chars.len(),
            s@ == chars@.subrange(start as int, i as int),
        decreases end - i,
    {
        s.push(chars[i]);
        i += 1;
    }
    s
}

/// Whether two character buffers hold the same text.
pub fn same_chars(a: &Vec<char>, b: &Vec<char>) -> (same: bool)
    ensures
        same == (a@ == b@),
{
    if a.len() != b.len() {
        return false;
    }
    let mut i: usize = 0;
    while i < a.len()
        invariant
            i <= a.len(),
            a.len() == b.len(),
            a@.take(i as int) == b@.take(i as int),
        decreases a.len() - i,
    {
        if a[i] != b[i] {
            return false;
        }
        assert(a@.take(i + 1) == a@.take(i as int).push(a@[i as int]));
        assert(b@.take(i + 1) == b@.take(i as int).push(b@[i as int]));
        i += 1;
    }
    assert(a@ == a@.take(a.len() as int));
    assert(b@ == b@.take(b.len() as int));
    true
}

/// `index_of(s, c)` is the one index below which nothing equals `c` and
/// which either holds `c` or is the end of `s`.
pub proof fn lemma_index_of(s: Seq<char>, c: char, k: int)
    requires
        0 <= k <= s.len(),
        forall|j: int| 0 <= j < k ==> s[j] != c,
        k < s.len() ==> s[k] == c,
    ensures
        index_of(s, c) == k,
    decreases k,
{
    if k > 0 {
        let t = s.drop_first();
        assert forall|j: int| 0 <= j < k - 1 implies t[j] != c by {
            assert(t[j] == s[j + 1]);
        }
        lemma_index_of(t, c, k - 1);
    }
}

/// The least index in `start..end` at which `chars` holds `c`, or `end`.
pub fn find_char(chars: &Vec<char>, start: usize, end: usize, c: char) -> (at: usize)
    requires
        start <= end <= chars.len(),
    ensures
        start <= at <= end,
        at == start + index_of(chars@.subrange(start as int, end as int), c),
{
    let mut i: usize = start;
    while i < end && chars[i] != c
        invariant
            start <= i <= end <= chars.len(),
            forall|j: int| start <= j < i ==> chars@[j] != c,
        decreases end - i,
    {
        i += 1;
    }
    proof {
        lemma_index_of(chars@.subrange(start as int, end as int), c, i - start);
    }
    i
}

/// The bounds of `chars[start..end]` once whitespace is taken off both ends.
pub fn trim_range(chars: &Vec<char>, start: usize, end: usize) -> (bounds: (usize, usize))
    requires
        start <= end <= chars.len(),
    ensures
        start <= bounds.0 <= bounds.1 <= end,
        chars@.subrange(bounds.0 as int, bounds.1 as int) == trim(
            chars@.subrange(start as int, end as int),
        ),
{
    let mut a: usize = start;
    while a < end && is_whitespace(chars[a])
        invariant
            start <= a <= end <= chars.len(),
            trim_start(chars@.subrange(start as int, end as int)) == trim_start(
                chars@.subrange(a as int, end as int),
            ),
        decreases end - a,
    {
        assert(chars@.subrange(a as int, end as int).drop_first() == chars@.subrange(
            a + 1,
            end as int,
        ));
        a += 1;
    }
    let mut b: usize = end;
    while b > a && is_whitespace(chars[b - 1])
        invariant
            a <= b <= end <= chars.len(),
            trim_end(chars@.subrange(a as int, end as int)) == trim_end(
                chars@.subrange(a as int, b as int),
            ),
        decreases b - a,
    {
        assert(chars@.subrange(a as int, b as int).drop_last() == chars@.subrange(
            a as int,
            b - 1,
        ));
        b -= 1;
    }
    (a, b)
}

/// A number never shrinks when more digits are written after it.
pub proof fn lemma_digits_value_prefix(s: Seq<char>, k: int)
    requires
        0 <= k <= s.len(),
        all_digits(s),
    ensures
        digits_value(s.take(k)) <= digits_value(s),
    decreases s.len() - k,
{
    if k < s.len() {
        let t = s.drop_last();
        assert(all_digits(t)) by {
            assert forall|i: int| 0 <= i < t.len() implies is_digit_char(#[trigger] t[i]) by {
                assert(t[i] == s[i]);
            }
        }
        lemma_digits_value_prefix(t, k);
        assert(t.take(k) == s.take(k));
        assert(is_digit_char(s[s.len() - 1]));
    } else {
        assert(s.take(k) == s);
    }
}

/// The unsigned decimal number that `chars[start..end]` writes, where it
/// writes one that is at most `max`.
pub fn parse_number(chars: &Vec<char>, start: usize, end: usize, max: usize) -> (number: Option<
    usize,
>)
    requires
        start <= end <= chars.len(),
    ensures
        match number {
            Some(n) => parse_bounded(chars@.subrange(start as int, end as int), max as nat)
                == Some(n as nat),
            None => parse_bounded(chars@.subrange(start as int, end as int), max as nat) is None,
        },
{
    let ghost text = chars@.subrange(start as int, end as int);
    let first: usize = if start < end && chars[start] == '+' {
        start + 1
    } else {
        start
    };
    let ghost digits = chars@.subrange(first as int, end as int);
    assert(digits == unsigned_digits(text));
    if first == end {
        return None;
    }
    let mut value: usize = 0;
    let mut i: usize = first;
    while i < end
        invariant
            first <= i <= end <= chars.len(),
            digits == chars@.subrange(first as int, end as int),
            digits == unsigned_digits(chars@.subrange(start as int, end as int)),
            all_digits(digits.take(i - first)),
            value == digits_value(digits.take(i - first)),
            value <= max,
        decreases end - i,
    {
        let c = chars[i];
        let ghost before = digits.take(i - first);
        let ghost after = digits.take(i + 1 - first);
        assert(after.drop_last() == before);
        assert(after.last() == c);
        if !('0' <= c && c <= '9') {
            assert(!is_digit_char(digits[i - first]));
            return None;
        }
        assert(all_digits(after)) by {
            assert forall|j: int| 0 <= j < after.len() implies is_digit_char(
                #[trigger] after[j],
            ) by {
                if j < before.len() {
                    assert(after[j] == before[j]);
                }
            }
        }
        let digit: u32 = c as u32 - '0' as u32;
        let next: u128 = value as u128 * 10 + digit as u128;
        if next > max as u128 {
            proof {
                if all_digits(digits) {
                    lemma_digits_value_prefix(digits, i + 1 - first);
                }
            }
            return None;
        }
        value = next as usize;
        i += 1;
    }
    assert(digits.take(end - first) == digits);
    Some(value)
}

/// The decimal digits that write `n`, most significant first, without
/// leading zeros.
pub open spec fn decimal(n: nat) -> Seq<char>
    decreases n,
{
    if n < 10 {
        seq![(n + '0' as u32) as u8 as char]
    } else {
        decimal(n / 10).push((n % 10 + '0' as u32) as u8 as char)
    }
}

/// Appends to `s` the decimal digits that write `n`.
pub fn push_decimal(s: &mut String, n: u128)
    ensures
        final(s)@ == old(s)@ + decimal(n as nat),
    decreases n,
{
    if n >= 10 {
        push_decimal(s, n / 10);
    }
    let digit: u8 = (n % 10) as u8 + 48;
    s.push(digit as char);
}

/// The pieces into which the spaces of `s` cut it, in order. Two spaces in
/// a row have an empty piece between them.
pub open spec fn split_words(s: Seq<char>) -> Seq<Seq<char>>
    decreases s.len(),
{
    let space = index_of(s, ' ');
    if 0 <= space < s.len() {
        seq![s.take(space)] + split_words(s.skip(space + 1))
    } else {
        seq![s]
    }
}

/// The texts of string slices, in order.
pub open spec fn slice_texts(slices: Seq<&str>) -> Seq<Seq<char>> {
    slices.map_values(|slice: &str| slice@)
}

/// The pieces into which the spaces of `s[start..end]` cut it, `chars`
/// being the characters of `s`.
pub fn split_spaces<'a>(s: &'a str, chars: &Vec<char>, start: usize, end: usize) -> (words: Vec<
    &'a str,
>)
    requires
        chars@ == s@,
        start <= end <= chars.len(),
    ensures
        slice_texts(words@) == split_words(chars@.subrange(start as int, end as int)),
{
    let ghost whole = split_words(chars@.subrange(start as int, end as int));
    let mut words: Vec<&'a str> = Vec::new();
    let mut pos: usize = start;
    assert(slice_texts(words@) == Seq::<Seq<char>>::empty());
    loop
        invariant
            chars@ == s@,
            start <= pos <= end <= chars.len(),
            whole == split_words(chars@.subrange(start as int, end as int)),
            whole == slice_texts(words@) + split_words(chars@.subrange(pos as int, end as int)),
        decreases end - pos,
    {
        let ghost text = chars@.subrange(pos as int, end as int);
        let ghost before = words@;
        let space = find_char(chars, pos, end, ' ');
        let word = s.substring_char(pos, space);
        words.push(word);
        assert(slice_texts(words@) == slice_texts(before).push(word@));
        assert(text.take(space - pos) == chars@.subrange(pos as int, space as int));
        if space >= end {
            assert(text.take(space - pos) == text);
            assert(split_words(text) == seq![text]);
            assert(slice_texts(before) + seq![text] == slice_texts(before).push(text));
            return words;
        }
        assert(text.skip(space - pos + 1) == chars@.subrange(space + 1, end as int));
        assert(slice_texts(before) + (seq![word@] + split_words(
            chars@.subrange(space + 1, end as int),
        )) == slice_texts(before).push(word@) + split_words(
            chars@.subrange(space + 1, end as int),
        ));
        pos = space + 1;
    }
}

/// Whether `chars[start..end]` is the text `other`.
pub fn range_is(chars: &Vec<char>, start: usize, end: usize, other: &Vec<char>) -> (same: bool)
    requires
        start <= end <= chars.len(),
    ensures
        same == (chars@.subrange(start as int, end as int) == other@),
{
    let ghost text = chars@.subrange(start as int, end as int);
    if end - start != other.len() {
        return false;
    }
    let mut i: usize = 0;
    while i < other.len()
        invariant
            start <= end <= chars.len(),
            i <= other.len(),
            end - start == other.len(),
            text == chars@.subrange(start as int, end as int),
            text.take(i as int) == other@.take(i as int),
        decreases other.len() - i,
    {
        if chars[start + i] != other[i] {
            assert(text[i as int] != other@[i as int]);
            return false;
        }
        assert(text.take(i + 1) == text.take(i as int).push(text[i as int]));
        assert(other@.take(i + 1) == other@.take(i as int).push(other@[i as int]));
        i += 1;
    }
    assert(text == text.take(text.len() as int));
    assert(other@ == other@.take(other.len() as int));
    true
}

} // verus!
