//! Text as sequences of characters: searching, trimming, ASCII case and decimal numerals.

use vstd::prelude::*;

verus! {

/// `String::push` appends one character to the end of the string and leaves the rest as it was.
pub assume_specification[ String::push ](s: &mut String, c: char)
    ensures
        final(s)@ == old(s)@.push(c),
;

/// The characters of `s`, in order.
pub fn chars_of(s: &str) -> (r: Vec<char>)
    ensures
        r@ == s@,
{
    let mut r: Vec<char> = Vec::new();
    for c in it: s.chars()
        invariant
            r@ == it.seq().take(it.index() as int),
            it.seq() == s@,
    {
        r.push(c);
        assert(it.seq().take(it.index() as int + 1) =~= it.seq().take(it.index() as int).push(c));
    }
    assert(s@.take(s@.len() as int) =~= s@);
    r
}

/// The string made of the characters `chars`.
pub fn text_of(chars: &[char]) -> (r: String)
    ensures
        r@ == chars@,
{
    let mut r = String::new();
    let mut i: usize = 0;
    while i < chars.len()
        invariant
            i <= chars@.len(),
            r@ == chars@.take(i as int),
        decreases chars@.len() - i,
    {
        r.push(chars[i]);
        i += 1;
        assert(chars@.take(i as int) =~= chars@.take(i - 1).push(chars@[i - 1]));
    }
    assert(chars@.take(i as int) =~= chars@);
    r
}

/// Whether a character has the Unicode property `White_Space`.
pub open spec fn white_space(c: char) -> bool {
    let n = c as int;
    ||| 0x09 <= n <= 0x0d
    ||| n == 0x20
    ||| n == 0x85
    ||| n == 0xa0
    ||| n == 0x1680
    ||| 0x2000 <= n <= 0x200a
    ||| 0x2028 <= n <= 0x2029
    ||| n == 0x202f
    ||| n == 0x205f
    ||| n == 0x3000
}

/// `char::is_whitespace` tells whether the character has the Unicode property `White_Space`, which
/// the Unicode Character Database gives to these characters.
pub assume_specification[ char::is_whitespace ](c: char) -> (r: bool)
    ensures
        r == white_space(c),
;

/// `c` with an ASCII capital letter replaced by its small letter.
pub open spec fn ascii_lower(c: char) -> char {
    if 'A' <= c <= 'Z' {
        (c as u8 + 32) as char
    } else {
        c
    }
}

/// Every character of `s` under [`ascii_lower`].
pub open spec fn lower(s: Seq<char>) -> Seq<char> {
    Seq::new(s.len(), |i: int| ascii_lower(s[i]))
}

/// `needle` stands in `hay` at position `i`.
pub open spec fn occurs_at(hay: Seq<char>, needle: Seq<char>, i: int) -> bool {
    &&& 0 <= i <= hay.len() - needle.len()
    &&& hay.subrange(i, i + needle.len()) == needle
}

/// `needle` stands somewhere in `hay`.
pub open spec fn contains(hay: Seq<char>, needle: Seq<char>) -> bool {
    exists|i: int| occurs_at(hay, needle, i)
}

/// `i` is the first position of `hay` at which `needle` stands.
pub open spec fn is_first_at(hay: Seq<char>, needle: Seq<char>, i: int) -> bool {
    &&& occurs_at(hay, needle, i)
    &&& forall|j: int| 0 <= j < i ==> !occurs_at(hay, needle, j)
}

/// The first position of `hay` at which `needle` stands, if any.
pub open spec fn first_at(hay: Seq<char>, needle: Seq<char>) -> Option<int> {
    if contains(hay, needle) {
        Some(choose|i: int| is_first_at(hay, needle, i))
    } else {
        None
    }
}

/// What stands before the first `needle`, and what stands behind it.
pub open spec fn split_at_first(s: Seq<char>, needle: Seq<char>) -> Option<(Seq<char>, Seq<char>)> {
    match first_at(s, needle) {
        Some(i) => Some((s.take(i), s.skip(i + needle.len()))),
        None => None,
    }
}

/// `s` without the white space in front.
pub open spec fn trim_start(s: Seq<char>) -> Seq<char>
    decreases s.len(),
{
    if s.len() > 0 && white_space(s[0]) {
        trim_start(s.drop_first())
    } else {
        s
    }
}

/// `s` without the white space at the end.
pub open spec fn trim_end(s: Seq<char>) -> Seq<char>
    decreases s.len(),
{
    if s.len() > 0 && white_space(s.last()) {
        trim_end(s.drop_last())
    } else {
        s
    }
}

/// `s` without the white space on both sides.
pub open spec fn trim(s: Seq<char>) -> Seq<char> {
    trim_end(trim_start(s))
}

/// `s` up to the first character that is one of `stops`, or all of it.
pub open spec fn up_to_any(s: Seq<char>, stops: Seq<char>) -> Seq<char>
    decreases s.len(),
{
    if s.len() == 0 || stops.contains(s[0]) {
        Seq::empty()
    } else {
        seq![s[0]] + up_to_any(s.drop_first(), stops)
    }
}

/// The decimal digit `d`.
pub open spec fn digit(d: nat) -> char {
    (48 + d) as char
}

/// The decimal numeral of `n`, without leading zeros.
pub open spec fn decimal(n: nat) -> Seq<char>
    decreases n,
{
    if n < 10 {
        seq![digit(n)]
    } else {
        decimal(n / 10).push(digit(n % 10))
    }
}

/// The decimal numeral of `n`, filled up with zeros in front to `width` digits.
pub open spec fn zero_padded(n: nat, width: nat) -> Seq<char> {
    let d = decimal(n);
    if d.len() < width {
        Seq::new((width - d.len()) as nat, |i: int| '0') + d
    } else {
        d
    }
}

/// The order of strings: by the first character that differs, a prefix before what it begins.
pub open spec fn text_le(a: Seq<char>, b: Seq<char>) -> bool
    decreases a.len(),
{
    if a.len() == 0 {
        true
    } else if b.len() == 0 {
        false
    } else if a[0] != b[0] {
        a[0] < b[0]
    } else {
        text_le(a.drop_first(), b.drop_first())
    }
}

pub fn ascii_lower_char(c: char) -> (r: char)
    ensures
        r == ascii_lower(c),
{
    if 'A' <= c && c <= 'Z' {
        (c as u8 + 32) as char
    } else {
        c
    }
}

/// The characters of `s` with ASCII letters in small.
pub fn lower_chars(s: &str) -> (r: Vec<char>)
    ensures
        r@ == lower(s@),
{
    let mut r = chars_of(s);
    let mut i: usize = 0;
    while i < r.len()
        invariant
            i <= r@.len(),
            r@.len() == s@.len(),
            forall|j: int| 0 <= j < i ==> r@[j] == ascii_lower(s@[j]),
            forall|j: int| i <= j < r@.len() ==> r@[j] == s@[j],
        decreases r@.len() - i,
    {
        let c = ascii_lower_char(r[i]);
        r.set(i, c);
        i += 1;
    }
    r
}

fn matches_at(hay: &[char], needle: &[char], at: usize) -> (r: bool)
    requires
        at + needle@.len() <= hay@.len(),
    ensures
        r == occurs_at(hay@, needle@, at as int),
{
    let end: usize = hay.len();
    let mut k: usize = 0;
    while k < needle.len()
        invariant
            k <= needle@.len(),
            at + needle@.len() <= hay@.len() == end,
            forall|j: int| 0 <= j < k ==> hay@[at + j] == needle@[j],
        decreases needle@.len() - k,
    {
        if hay[at + k] != needle[k] {
            assert(hay@.subrange(at as int, at + needle@.len())[k as int] != needle@[k as int]);
            return false;
        }
        k += 1;
    }
    assert(hay@.subrange(at as int, at + needle@.len()) =~= needle@);
    true
}

/// Two positions that are both first are one.
pub proof fn lemma_first_at_unique(hay: Seq<char>, needle: Seq<char>, i: int)
    requires
        is_first_at(hay, needle, i),
    ensures
        first_at(hay, needle) == Some(i),
{
    assert(occurs_at(hay, needle, i));
    let k = choose|k: int| is_first_at(hay, needle, k);
    assert(is_first_at(hay, needle, k));
    if k < i {
        assert(!occurs_at(hay, needle, k));
    }
    if i < k {
        assert(!occurs_at(hay, needle, i));
    }
}

/// The first position of `hay` at which `needle` stands.
pub fn find_chars(hay: &[char], needle: &[char]) -> (r: Option<usize>)
    ensures
        match r {
            Some(i) => first_at(hay@, needle@) == Some(i as int) && i + needle@.len() <= hay@.len(),
            None => first_at(hay@, needle@) is None,
        },
        r is Some <==> contains(hay@, needle@),
{
    let mut i: usize = 0;
    if needle.len() > hay.len() {
        return None;
    }
    let last: usize = hay.len() - needle.len();
    while i <= last
        invariant
            last + needle@.len() == hay@.len(),
            i <= last + 1,
            forall|j: int| 0 <= j < i ==> !occurs_at(hay@, needle@, j),
        decreases last + 1 - i,
    {
        if matches_at(hay, needle, i) {
            proof {
                lemma_first_at_unique(hay@, needle@, i as int);
            }
            return Some(i);
        }
        if i == last {
            assert forall|j: int| !occurs_at(hay@, needle@, j) by {}
            return None;
        }
        i += 1;
    }
    None
}

/// Whether `needle` stands in `hay`.
pub fn has_text(hay: &[char], needle: &str) -> (r: bool)
    ensures
        r == contains(hay@, needle@),
{
    find_chars(hay, chars_of(needle).as_slice()).is_some()
}

/// Whether two texts are the same.
pub fn same_text(a: &str, b: &str) -> (r: bool)
    ensures
        r == (a@ == b@),
{
    same_chars(chars_of(a).as_slice(), chars_of(b).as_slice())
}

pub fn same_chars(a: &[char], b: &[char]) -> (r: bool)
    ensures
        r == (a@ == b@),
{
    if a.len() != b.len() {
        return false;
    }
    let mut i: usize = 0;
    while i < a.len()
        invariant
            i <= a@.len(),
            a@.len() == b@.len(),
            forall|j: int| 0 <= j < i ==> a@[j] == b@[j],
        decreases a@.len() - i,
    {
        if a[i] != b[i] {
            return false;
        }
        i += 1;
    }
    assert(a@ =~= b@);
    true
}

/// The part of `s` from `from` to `to`.
pub fn part(s: &[char], from: usize, to: usize) -> (r: Vec<char>)
    requires
        from <= to <= s@.len(),
    ensures
        r@ == s@.subrange(from as int, to as int),
{
    let mut r: Vec<char> = Vec::new();
    let mut i: usize = from;
    while i < to
        invariant
            from <= i <= to <= s@.len(),
            r@ == s@.subrange(from as int, i as int),
        decreases to - i,
    {
        r.push(s[i]);
        i += 1;
        assert(s@.subrange(from as int, i as int) =~= s@.subrange(from as int, i - 1).push(
            s@[i - 1],
        ));
    }
    r
}

/// `s` without the white space on both sides.
pub fn trim_chars(s: &[char]) -> (r: Vec<char>)
    ensures
        r@ == trim(s@),
{
    let mut from: usize = 0;
    assert(s@.skip(0) =~= s@);
    while from < s.len() && s[from].is_whitespace()
        invariant
            from <= s@.len(),
            trim_start(s@) == trim_start(s@.skip(from as int)),
        decreases s@.len() - from,
    {
        assert(s@.skip(from as int).drop_first() =~= s@.skip(from + 1));
        from += 1;
    }
    assert(trim_start(s@) == s@.skip(from as int));
    let mut to: usize = s.len();
    assert(s@.subrange(from as int, to as int) =~= s@.skip(from as int));
    while to > from && s[to - 1].is_whitespace()
        invariant
            from <= to <= s@.len(),
            trim(s@) == trim_end(s@.subrange(from as int, to as int)),
        decreases to,
    {
        assert(s@.subrange(from as int, to as int).drop_last() =~= s@.subrange(
            from as int,
            to - 1,
        ));
        to -= 1;
    }
    part(s, from, to)
}

/// `s` without the white space in front.
pub fn trim_start_chars(s: &[char]) -> (r: Vec<char>)
    ensures
        r@ == trim_start(s@),
{
    let mut from: usize = 0;
    assert(s@.skip(0) =~= s@);
    while from < s.len() && s[from].is_whitespace()
        invariant
            from <= s@.len(),
            trim_start(s@) == trim_start(s@.skip(from as int)),
        decreases s@.len() - from,
    {
        assert(s@.skip(from as int).drop_first() =~= s@.skip(from + 1));
        from += 1;
    }
    assert(s@.subrange(from as int, s@.len() as int) =~= s@.skip(from as int));
    part(s, from, s.len())
}

/// Whether `c` is one of `set`.
pub fn one_of(c: char, set: &[char]) -> (r: bool)
    ensures
        r == set@.contains(c),
{
    let mut i: usize = 0;
    while i < set.len()
        invariant
            i <= set@.len(),
            forall|j: int| 0 <= j < i ==> set@[j] != c,
        decreases set@.len() - i,
    {
        if set[i] == c {
            assert(set@[i as int] == c);
            return true;
        }
        i += 1;
    }
    false
}

/// `s` up to the first character that is one of `stops`, or all of it.
pub fn take_up_to_any(s: &[char], stops: &[char]) -> (r: Vec<char>)
    ensures
        r@ == up_to_any(s@, stops@),
{
    let mut r: Vec<char> = Vec::new();
    let mut i: usize = 0;
    assert(s@.skip(0) =~= s@);
    while i < s.len() && !one_of(s[i], stops)
        invariant
            i <= s@.len(),
            r@ + up_to_any(s@.skip(i as int), stops@) == up_to_any(s@, stops@),
        decreases s@.len() - i,
    {
        assert(s@.skip(i as int).drop_first() =~= s@.skip(i + 1));
        let ghost before = r@;
        r.push(s[i]);
        assert(before + (seq![s@[i as int]] + up_to_any(s@.skip(i + 1), stops@)) =~= r@ + up_to_any(
            s@.skip(i + 1),
            stops@,
        ));
        i += 1;
    }
    assert(up_to_any(s@.skip(i as int), stops@) =~= Seq::<char>::empty());
    assert(r@ + Seq::<char>::empty() =~= r@);
    r
}

/// The decimal numeral of `n`.
pub fn decimal_chars(n: u64) -> (r: Vec<char>)
    ensures
        r@ == decimal(n as nat),
    decreases n,
{
    if n < 10 {
        let mut r: Vec<char> = Vec::new();
        r.push((48u8 + n as u8) as char);
        r
    } else {
        let mut r = decimal_chars(n / 10);
        r.push((48u8 + (n % 10) as u8) as char);
        r
    }
}

/// The decimal numeral of `n`, as text.
pub fn decimal_text(n: u64) -> (r: String)
    ensures
        r@ == decimal(n as nat),
{
    text_of(decimal_chars(n).as_slice())
}

/// The decimal numeral of `n`, filled up with zeros in front to `width` digits.
pub fn zero_padded_text(n: u64, width: usize) -> (r: String)
    ensures
        r@ == zero_padded(n as nat, width as nat),
{
    let d = decimal_chars(n);
    let mut r: Vec<char> = Vec::new();
    let mut k: usize = d.len();
    while k < width
        invariant
            d@.len() <= k,
            d@.len() < width ==> k <= width && r@.len() == k - d@.len(),
            d@.len() >= width ==> r@.len() == 0,
            forall|j: int| 0 <= j < r@.len() ==> r@[j] == '0',
        decreases width - k,
    {
        r.push('0');
        k += 1;
    }
    let mut d = d;
    r.append(&mut d);
    assert(r@ =~= zero_padded(n as nat, width as nat));
    text_of(r.as_slice())
}

/// Whether `a` comes before `b` in the order of strings, or is `b`.
pub fn text_before_or_same(a: &[char], b: &[char]) -> (r: bool)
    ensures
        r == text_le(a@, b@),
{
    let mut i: usize = 0;
    assert(a@.skip(0) =~= a@);
    assert(b@.skip(0) =~= b@);
    while i < a.len() && i < b.len()
        invariant
            i <= a@.len(),
            i <= b@.len(),
            text_le(a@, b@) == text_le(a@.skip(i as int), b@.skip(i as int)),
        decreases a@.len() - i,
    {
        if a[i] != b[i] {
            return a[i] < b[i];
        }
        assert(a@.skip(i as int).drop_first() =~= a@.skip(i + 1));
        assert(b@.skip(i as int).drop_first() =~= b@.skip(i + 1));
        i += 1;
    }
    i == a.len()
}

/// Trimming cuts white space off both ends and nothing else, and leaves none there.
pub proof fn trimming_takes_only_white_space(s: Seq<char>) -> (ends: (int, int))
    ensures
        0 <= ends.0 <= ends.1 <= s.len(),
        trim(s) == s.subrange(ends.0, ends.1),
        forall|k: int| 0 <= k < ends.0 ==> white_space(#[trigger] s[k]),
        forall|k: int| ends.1 <= k < s.len() ==> white_space(#[trigger] s[k]),
        trim(s).len() > 0 ==> !white_space(trim(s)[0]) && !white_space(trim(s).last()),
{
    let i = lemma_trimmed_start(s);
    let t = s.skip(i);
    let j = lemma_trimmed_end(t);
    assert(t.take(j) =~= s.subrange(i, i + j));
    assert forall|k: int| i + j <= k < s.len() implies white_space(#[trigger] s[k]) by {
        assert(t[k - i] == s[k]);
    }
    (i, i + j)
}

proof fn lemma_trimmed_start(s: Seq<char>) -> (i: int)
    ensures
        0 <= i <= s.len(),
        trim_start(s) == s.skip(i),
        forall|k: int| 0 <= k < i ==> white_space(#[trigger] s[k]),
        i < s.len() ==> !white_space(s[i]),
    decreases s.len(),
{
    if s.len() > 0 && white_space(s[0]) {
        let rest = s.drop_first();
        let i = lemma_trimmed_start(rest);
        assert(rest.skip(i) =~= s.skip(i + 1));
        assert forall|k: int| 0 <= k < i + 1 implies white_space(#[trigger] s[k]) by {
            if k > 0 {
                assert(rest[k - 1] == s[k]);
            }
        }
        i + 1
    } else {
        assert(s.skip(0) =~= s);
        0
    }
}

proof fn lemma_trimmed_end(s: Seq<char>) -> (j: int)
    ensures
        0 <= j <= s.len(),
        trim_end(s) == s.take(j),
        forall|k: int| j <= k < s.len() ==> white_space(#[trigger] s[k]),
        j > 0 ==> !white_space(s[j - 1]),
    decreases s.len(),
{
    if s.len() > 0 && white_space(s.last()) {
        let rest = s.drop_last();
        let j = lemma_trimmed_end(rest);
        assert(rest.take(j) =~= s.take(j));
        assert forall|k: int| j <= k < s.len() implies white_space(#[trigger] s[k]) by {
            if k < s.len() - 1 {
                assert(rest[k] == s[k]);
            }
        }
        j
    } else {
        assert(s.take(s.len() as int) =~= s);
        s.len() as int
    }
}

/// A text that neither begins nor ends with white space is left as it is by trimming, whatever
/// white space is put around it.
pub proof fn trimming_finds_what_is_inside(front: Seq<char>, s: Seq<char>, back: Seq<char>)
    requires
        forall|k: int| 0 <= k < front.len() ==> white_space(#[trigger] front[k]),
        forall|k: int| 0 <= k < back.len() ==> white_space(#[trigger] back[k]),
        s.len() > 0,
        !white_space(s[0]),
        !white_space(s.last()),
    ensures
        trim(front + s + back) == s,
        trim_start(front + s + back) == s + back,
{
    let all = front + s + back;
    let i = lemma_trimmed_start(all);
    let n = front.len() as int;
    assert(all[n] == s[0]);
    if i < n {
        assert(all[i] == front[i]);
    }
    assert(i == n);
    assert(all.skip(n) =~= s + back);
    let t = s + back;
    let j = lemma_trimmed_end(t);
    let m = s.len() as int;
    assert(t[m - 1] == s.last());
    if j > m {
        assert(t[j - 1] == back[j - 1 - m]);
    }
    assert(t.take(m) =~= s);
}

/// What stands before the first stop is all that does: the longest front without a stop.
pub proof fn reading_ends_at_the_first_stop(s: Seq<char>, stops: Seq<char>)
    ensures
        up_to_any(s, stops).len() <= s.len(),
        up_to_any(s, stops) == s.take(up_to_any(s, stops).len() as int),
        forall|k: int| 0 <= k < up_to_any(s, stops).len() ==> !stops.contains(#[trigger] s[k]),
        up_to_any(s, stops).len() < s.len() ==> stops.contains(s[up_to_any(s, stops).len() as int]),
    decreases s.len(),
{
    if s.len() > 0 && !stops.contains(s[0]) {
        let rest = s.drop_first();
        reading_ends_at_the_first_stop(rest, stops);
        let r = up_to_any(rest, stops);
        assert(seq![s[0]] + r =~= s.take(r.len() as int + 1));
        assert forall|k: int| 0 <= k < r.len() + 1 implies !stops.contains(#[trigger] s[k]) by {
            if k > 0 {
                assert(rest[k - 1] == s[k]);
            }
        }
        if r.len() < rest.len() {
            assert(rest[r.len() as int] == s[r.len() as int + 1]);
        }
    } else {
        assert(s.take(0) =~= Seq::<char>::empty());
    }
}

/// A value that holds no stop is read whole from in front of a stop, and from the end of a text.
pub proof fn value_is_read_whole(value: Seq<char>, stops: Seq<char>, rest: Seq<char>)
    requires
        forall|k: int| 0 <= k < value.len() ==> !stops.contains(#[trigger] value[k]),
        rest.len() > 0 ==> stops.contains(rest[0]),
    ensures
        up_to_any(value + rest, stops) == value,
{
    let s = value + rest;
    reading_ends_at_the_first_stop(s, stops);
    let n = up_to_any(s, stops).len() as int;
    let m = value.len() as int;
    if n < m {
        assert(s[n] == value[n]);
    }
    if n > m {
        assert(s[m] == rest[0]);
    }
    assert(s.take(m) =~= value);
}

/// Cutting a text at the first place where another stands gives two parts that make it up again
/// with that one between them, and in the front part, or across its end, the other does not stand.
/// A text is cut wherever the other stands in it.
pub proof fn cut_parts_make_up_the_text(s: Seq<char>, needle: Seq<char>)
    ensures
        match split_at_first(s, needle) {
            Some((front, back)) => {
                &&& s == front + needle + back
                &&& forall|i: int| 0 <= i < front.len() ==> !#[trigger] occurs_at(s, needle, i)
            },
            None => forall|front: Seq<char>, back: Seq<char>|
                s != #[trigger] (front + needle + back),
        },
{
    if contains(s, needle) {
        let i = choose|i: int| occurs_at(s, needle, i);
        let k = lemma_first_exists(s, needle, i);
        lemma_first_at_unique(s, needle, k);
        assert(s =~= s.take(k) + needle + s.skip(k + needle.len())) by {
            assert(s.subrange(k, k + needle.len()) == needle);
            assert forall|j: int| 0 <= j < s.len() implies #[trigger] s[j] == (s.take(k) + needle
                + s.skip(k + needle.len()))[j] by {
                if k <= j < k + needle.len() {
                    assert(s.subrange(k, k + needle.len())[j - k] == needle[j - k]);
                }
            }
        }
    } else {
        assert forall|front: Seq<char>, back: Seq<char>| s != #[trigger] (front + needle + back) by {
            if s == front + needle + back {
                let n = front.len() as int;
                assert(s.subrange(n, n + needle.len()) =~= needle);
                assert(occurs_at(s, needle, n));
            }
        }
    }
}

proof fn lemma_first_exists(hay: Seq<char>, needle: Seq<char>, i: int) -> (k: int)
    requires
        occurs_at(hay, needle, i),
    ensures
        is_first_at(hay, needle, k),
    decreases i,
{
    if exists|j: int| 0 <= j < i && occurs_at(hay, needle, j) {
        let j = choose|j: int| 0 <= j < i && occurs_at(hay, needle, j);
        lemma_first_exists(hay, needle, j)
    } else {
        i
    }
}

/// Small letters change nothing but the capitals A to Z, each to the small letter that stands as
/// far behind the small a as it stands behind the capital A.
pub proof fn small_letters_keep_the_rest(s: Seq<char>)
    ensures
        lower(s).len() == s.len(),
        forall|i: int| 0 <= i < s.len() && !('A' <= s[i] <= 'Z') ==> #[trigger] lower(s)[i] == s[i],
        forall|i: int|
            0 <= i < s.len() && 'A' <= s[i] <= 'Z' ==> (#[trigger] lower(s)[i]) as int - 'a' as int
                == s[i] as int - 'A' as int,
        lower(lower(s)) == lower(s),
{
    assert forall|i: int| 0 <= i < s.len() && 'A' <= s[i] <= 'Z' implies (#[trigger] lower(
        s,
    )[i]) as int - 'a' as int == s[i] as int - 'A' as int by {
        let c = s[i];
        assert(c as u8 == c as int);
    }
    assert(lower(lower(s)) =~= lower(s));
}

/// Of two texts that go on differently behind what they share, the one whose next character is
/// smaller comes first; and what begins a text comes before it.
pub proof fn texts_are_ordered_by_the_first_difference(
    shared: Seq<char>,
    x: char,
    a: Seq<char>,
    y: char,
    b: Seq<char>,
)
    requires
        x != y,
    ensures
        text_le(shared + seq![x] + a, shared + seq![y] + b) <==> x < y,
        text_le(shared, shared + a),
        a.len() > 0 ==> !text_le(shared + a, shared),
    decreases shared.len(),
{
    let s = shared + seq![x] + a;
    let t = shared + seq![y] + b;
    if shared.len() > 0 {
        let rest = shared.drop_first();
        texts_are_ordered_by_the_first_difference(rest, x, a, y, b);
        assert(s.drop_first() =~= rest + seq![x] + a);
        assert(t.drop_first() =~= rest + seq![y] + b);
        assert((shared + a).drop_first() =~= rest + a);
        assert(s[0] == shared[0] && t[0] == shared[0]);
    } else {
        assert(s[0] == x && t[0] == y);
        assert(shared + a =~= a);
    }
}

/// Two texts that differ still do so with the same around them.
pub proof fn lemma_apart(front: Seq<char>, a: Seq<char>, b: Seq<char>, back: Seq<char>)
    requires
        a != b,
    ensures
        front + a + back != front + b + back,
{
    let x = front + a + back;
    let y = front + b + back;
    let n = front.len() as int;
    if x == y {
        assert(x.len() == y.len());
        assert(x.subrange(n, n + a.len()) =~= a);
        assert(y.subrange(n, n + b.len()) =~= b);
    }
}

} // verus!
