//! Text helpers shared by the library: decimal rendering of integers and
//! character-level string building.

use vstd::prelude::*;

verus! {

/// The character of a decimal digit `d` (0 to 9).
pub open spec fn digit_char(d: int) -> char {
    (48 + d) as char
}

/// The decimal rendering of a natural number, most significant digit first,
/// with no leading zeros ("0" for zero).
pub open spec fn decimal(n: nat) -> Seq<char>
    decreases n,
{
    if n < 10 {
        seq![digit_char(n as int)]
    } else {
        decimal(n / 10).push(digit_char((n % 10) as int))
    }
}

/// The decimal rendering of an integer, with a leading '-' when it is
/// negative.
pub open spec fn int_decimal(i: int) -> Seq<char> {
    if i < 0 {
        seq!['-'] + decimal((-i) as nat)
    } else {
        decimal(i as nat)
    }
}

/// Appends one character to a string (std's `String::push`).
#[verifier::external_body]
pub fn push_char(s: &mut String, c: char)
    ensures
        final(s)@ == old(s)@.push(c),
{
    s.push(c)
}

/// Appends the decimal digits of `n` to `s`.
pub fn append_decimal(s: &mut String, n: u64)
    ensures
        final(s)@ == old(s)@ + decimal(n as nat),
    decreases n,
{
    if n >= 10 {
        append_decimal(s, n / 10);
    }
    let d: u8 = (n % 10) as u8;
    let c: char = (48u8 + d) as char;
    assert(c == digit_char(d as int));
    push_char(s, c);
    assert(final(s)@ =~= old(s)@ + decimal(n as nat));
}

/// Appends the decimal digits of a 128-bit `n` to `s`.
pub fn append_wide_decimal(s: &mut String, n: u128)
    ensures
        final(s)@ == old(s)@ + decimal(n as nat),
    decreases n,
{
    if n >= 10 {
        append_wide_decimal(s, n / 10);
    }
    let d: u8 = (n % 10) as u8;
    let c: char = (48u8 + d) as char;
    assert(c == digit_char(d as int));
    push_char(s, c);
    assert(final(s)@ =~= old(s)@ + decimal(n as nat));
}

/// The decimal rendering of an unsigned integer.
pub fn usize_to_string(n: usize) -> (s: String)
    ensures
        s@ == decimal(n as nat),
{
    let mut s = String::new();
    append_decimal(&mut s, n as u64);
    assert(s@ =~= decimal(n as nat));
    s
}

/// Appends the decimal rendering of a signed integer to `s`.
pub fn append_int(s: &mut String, i: i64)
    ensures
        final(s)@ == old(s)@ + int_decimal(i as int),
{
    if i < 0 {
        push_char(s, '-');
        let m: u64 = if i == i64::MIN { 9223372036854775808u64 } else { (-i) as u64 };
        append_decimal(s, m);
        assert(final(s)@ =~= old(s)@ + int_decimal(i as int));
    } else {
        append_decimal(s, i as u64);
    }
}


/// The characters of a string slice, in order.
pub fn chars_of(s: &str) -> (v: Vec<char>)
    ensures
        v@ == s@,
{
    let mut v: Vec<char> = Vec::new();
    for c in it: s.chars()
        invariant
            v@ == it.seq().take(it.index() as int),
    {
        v.push(c);
    }
    v
}


/// The string made of the characters `v[from..to]`.
pub fn string_of(v: &Vec<char>, from: usize, to: usize) -> (s: String)
    requires
        from <= to <= v@.len(),
    ensures
        s@ == v@.subrange(from as int, to as int),
{
    let mut s = String::new();
    let mut i: usize = from;
    while i < to
        invariant
            from <= i <= to,
            to <= v@.len(),
            s@ == v@.subrange(from as int, i as int),
        decreases to - i,
    {
        push_char(&mut s, v[i]);
        assert(v@.subrange(from as int, i + 1) =~= v@.subrange(from as int, i as int).push(v@[i as int]));
        i = i + 1;
    }
    s
}

/// Whether two character sequences are equal, element by element.
pub fn chars_equal(a: &Vec<char>, b: &Vec<char>) -> (r: bool)
    ensures
        r == (a@ == b@),
{
    if a.len() != b.len() {
        return false;
    }
    let mut i: usize = 0;
    while i < a.len()
        invariant
            i <= a@.len(),
            a@.len() == b@.len(),
            a@.take(i as int) == b@.take(i as int),
        decreases a@.len() - i,
    {
        if a[i] != b[i] {
            assert(a@[i as int] != b@[i as int]);
            return false;
        }
        assert(a@.take(i + 1) =~= a@.take(i as int).push(a@[i as int]));
        assert(b@.take(i + 1) =~= b@.take(i as int).push(b@[i as int]));
        i = i + 1;
    }
    assert(a@ =~= a@.take(i as int));
    assert(b@ =~= b@.take(i as int));
    true
}

/// Whether two string slices hold the same characters.
pub fn str_equal(a: &str, b: &str) -> (r: bool)
    ensures
        r == (a@ == b@),
{
    let x = chars_of(a);
    let y = chars_of(b);
    chars_equal(&x, &y)
}

/// The index of the first occurrence of `c` in `s`, or -1.
pub open spec fn first_index_of(s: Seq<char>, c: char) -> int
    decreases s.len(),
{
    if s.len() == 0 {
        -1
    } else if s[0] == c {
        0
    } else {
        let r = first_index_of(s.drop_first(), c);
        if r < 0 {
            -1
        } else {
            r + 1
        }
    }
}

/// The index of the last occurrence of `c` in `s`, or -1.
pub open spec fn last_index_of(s: Seq<char>, c: char) -> int
    decreases s.len(),
{
    if s.len() == 0 {
        -1
    } else if s.last() == c {
        s.len() - 1
    } else {
        last_index_of(s.drop_last(), c)
    }
}

/// How many times `c` occurs in `s`.
pub open spec fn count_of(s: Seq<char>, c: char) -> nat
    decreases s.len(),
{
    if s.len() == 0 {
        0
    } else {
        count_of(s.drop_last(), c) + if s.last() == c {
            1nat
        } else {
            0nat
        }
    }
}

pub proof fn lemma_first_index_of(s: Seq<char>, c: char)
    ensures
        -1 <= first_index_of(s, c) < s.len(),
        first_index_of(s, c) >= 0 ==> s[first_index_of(s, c)] == c,
        forall|j: int| 0 <= j < s.len() && (first_index_of(s, c) < 0 || j < first_index_of(s, c))
            ==> s[j] != c,
    decreases s.len(),
{
    if s.len() > 0 {
        lemma_first_index_of(s.drop_first(), c);
        assert forall|j: int| 0 <= j < s.len() && (first_index_of(s, c) < 0 || j < first_index_of(s, c))
            implies s[j] != c by {
            if j > 0 {
                assert(s[j] == s.drop_first()[j - 1]);
            }
        }
    }
}

/// The first position of `ch` in `c[from..to]`, counted from the start.
pub fn find_between(c: &Vec<char>, from: usize, to: usize, ch: char) -> (r: Option<usize>)
    requires
        from <= to <= c@.len(),
    ensures
        match r {
            Some(i) => from <= i < to && first_index_of(c@.subrange(from as int, to as int), ch) == i - from,
            None => first_index_of(c@.subrange(from as int, to as int), ch) < 0,
        },
{
    let ghost t = c@.subrange(from as int, to as int);
    proof {
        lemma_first_index_of(t, ch);
    }
    let mut i = from;
    while i < to
        invariant
            from <= i <= to <= c@.len(),
            t == c@.subrange(from as int, to as int),
            forall|j: int| from <= j < i ==> c@[j] != ch,
        decreases to - i,
    {
        if c[i] == ch {
            proof {
                lemma_first_index_of(t, ch);
                let f = first_index_of(t, ch);
                assert(t[i - from] == ch);
                if 0 <= f < i - from {
                    assert(t[f] == c@[f + from]);
                }
            }
            return Some(i);
        }
        i = i + 1;
    }
    proof {
        let f = first_index_of(t, ch);
        if f >= 0 {
            assert(t[f] == c@[f + from]);
        }
    }
    None
}

/// The index of the first occurrence of `c` in `s[from..]`, or -1; the
/// result counts from the start of `s`.
pub fn find_char(s: &Vec<char>, from: usize, c: char) -> (r: Option<usize>)
    requires
        from <= s@.len(),
    ensures
        match r {
            Some(i) => from <= i < s@.len() && s@[i as int] == c && first_index_of(
                s@.skip(from as int),
                c,
            ) == i - from,
            None => first_index_of(s@.skip(from as int), c) == -1,
        },
{
    let ghost t = s@.skip(from as int);
    proof {
        lemma_first_index_of(t, c);
    }
    let mut i: usize = from;
    while i < s.len()
        invariant
            from <= i <= s@.len(),
            t == s@.skip(from as int),
            forall|j: int| from <= j < i ==> s@[j] != c,
        decreases s@.len() - i,
    {
        if s[i] == c {
            proof {
                lemma_first_index_of(t, c);
                assert(t[i - from] == c);
                let f = first_index_of(t, c);
                if f < 0 || f > i - from {
                    assert(t[i - from] != c);
                }
                if 0 <= f < i - from {
                    assert(s@[f + from] != c);
                }
            }
            return Some(i);
        }
        i = i + 1;
    }
    proof {
        lemma_first_index_of(t, c);
        let f = first_index_of(t, c);
        if f >= 0 {
            assert(s@[f + from] == c);
        }
    }
    None
}

proof fn lemma_last_index_of(s: Seq<char>, c: char)
    ensures
        -1 <= last_index_of(s, c) < s.len(),
        last_index_of(s, c) >= 0 ==> s[last_index_of(s, c)] == c,
        forall|j: int| last_index_of(s, c) < j < s.len() ==> s[j] != c,
    decreases s.len(),
{
    if s.len() > 0 && s.last() != c {
        lemma_last_index_of(s.drop_last(), c);
        assert forall|j: int| last_index_of(s, c) < j < s.len() implies s[j] != c by {
            if j < s.len() - 1 {
                assert(s[j] == s.drop_last()[j]);
            }
        }
    }
}

/// The index of the last occurrence of `c` in `s[from..to]`, or None; the
/// result counts from the start of `s`.
pub fn rfind_char(s: &Vec<char>, from: usize, to: usize, c: char) -> (r: Option<usize>)
    requires
        from <= to <= s@.len(),
    ensures
        match r {
            Some(i) => from <= i < to && s@[i as int] == c && last_index_of(
                s@.subrange(from as int, to as int),
                c,
            ) == i - from,
            None => last_index_of(s@.subrange(from as int, to as int), c) == -1,
        },
{
    let ghost t = s@.subrange(from as int, to as int);
    proof {
        lemma_last_index_of(t, c);
    }
    let mut i: usize = to;
    while i > from
        invariant
            from <= i <= to,
            to <= s@.len(),
            t == s@.subrange(from as int, to as int),
            forall|j: int| i <= j < to ==> s@[j] != c,
        decreases i,
    {
        if s[i - 1] == c {
            proof {
                lemma_last_index_of(t, c);
                let l = last_index_of(t, c);
                assert(t[i - 1 - from] == c);
                if l > i - 1 - from {
                    assert(t[l] == c);
                    assert(t[l] == s@[l + from]);
                }
            }
            return Some(i - 1);
        }
        i = i - 1;
    }
    proof {
        let l = last_index_of(t, c);
        if l >= 0 {
            assert(t[l] == c);
            assert(t[l] == s@[l + from]);
        }
    }
    None
}


/// The number of bytes that a character takes in UTF-8.
pub open spec fn utf8_width(c: char) -> nat {
    let v = c as u32;
    if v <= 0x7F {
        1
    } else if v <= 0x7FF {
        2
    } else if v <= 0xFFFF {
        3
    } else {
        4
    }
}

/// The number of bytes that characters take in UTF-8, added up from the
/// front.
pub open spec fn utf8_len(s: Seq<char>) -> nat
    decreases s.len(),
{
    if s.len() == 0 {
        0
    } else {
        utf8_width(s[0]) + utf8_len(s.drop_first())
    }
}

proof fn lemma_utf8_len_encode(s: Seq<char>)
    ensures
        vstd::utf8::encode_utf8(s).len() == utf8_len(s),
    decreases s.len(),
{
    if s.len() > 0 {
        lemma_utf8_len_encode(s.drop_first());
        vstd::utf8::char_is_scalar(s[0]);
    }
}

pub(crate) proof fn lemma_utf8_len_push(s: Seq<char>, c: char)
    ensures
        utf8_len(s.push(c)) == utf8_len(s) + utf8_width(c),
    decreases s.len(),
{
    if s.len() > 0 {
        lemma_utf8_len_push(s.drop_first(), c);
        assert(s.push(c).drop_first() =~= s.drop_first().push(c));
        assert(s.push(c)[0] == s[0]);
        assert(utf8_len(s.push(c)) == utf8_width(s[0]) + utf8_len(s.drop_first().push(c)));
        assert(utf8_len(s) == utf8_width(s[0]) + utf8_len(s.drop_first()));
    } else {
        assert(s.push(c).drop_first() =~= Seq::<char>::empty());
        assert(s.push(c)[0] == c);
        assert(utf8_len(Seq::<char>::empty()) == 0);
        assert(utf8_len(s.push(c)) == utf8_width(c) + utf8_len(Seq::<char>::empty()));
    }
}

/// The UTF-8 length of `v`, or `cap` when it is at least `cap`.
pub fn utf8_len_capped(v: &Vec<char>, cap: usize) -> (n: usize)
    ensures
        n == (if vstd::utf8::encode_utf8(v@).len() >= cap {
            cap as nat
        } else {
            vstd::utf8::encode_utf8(v@).len()
        }),
{
    proof {
        lemma_utf8_len_encode(v@);
    }
    let mut n: usize = 0;
    let mut i: usize = 0;
    while i < v.len() && n < cap
        invariant
            i <= v@.len(),
            n <= cap,
            n < cap ==> n == utf8_len(v@.take(i as int)),
            n == cap ==> utf8_len(v@.take(i as int)) >= cap,
        decreases v@.len() - i,
    {
        let c = v[i];
        let u = c as u32;
        let w: usize = if u <= 0x7F {
            1
        } else if u <= 0x7FF {
            2
        } else if u <= 0xFFFF {
            3
        } else {
            4
        };
        proof {
            lemma_utf8_len_push(v@.take(i as int), c);
            assert(v@.take(i + 1) =~= v@.take(i as int).push(c));
        }
        n = if cap - n <= w { cap } else { n + w };
        i = i + 1;
    }
    proof {
        if n < cap {
            assert(v@.take(i as int) =~= v@);
        } else {
            lemma_utf8_len_prefix(v@, i as int);
        }
    }
    n
}

/// Whether the UTF-8 encoding of `s` takes at most `limit` bytes.
pub fn utf8_len_at_most(s: &str, limit: usize) -> (b: bool)
    ensures
        b == (vstd::utf8::encode_utf8(s@).len() <= limit),
{
    let v = chars_of(s);
    proof {
        lemma_utf8_len_encode(v@);
    }
    let mut n: usize = 0;
    let mut i: usize = 0;
    while i < v.len()
        invariant
            i <= v@.len(),
            v@ == s@,
            n <= limit,
            n == utf8_len(v@.take(i as int)),
        decreases v@.len() - i,
    {
        let c = v[i];
        let u = c as u32;
        let w: usize = if u <= 0x7F {
            1
        } else if u <= 0x7FF {
            2
        } else if u <= 0xFFFF {
            3
        } else {
            4
        };
        proof {
            lemma_utf8_len_push(v@.take(i as int), c);
            assert(v@.take(i + 1) =~= v@.take(i as int).push(c));
        }
        if limit - n < w {
            proof {
                lemma_utf8_len_prefix(v@, i + 1);
                lemma_utf8_len_encode(v@);
            }
            return false;
        }
        n = n + w;
        i = i + 1;
    }
    assert(v@.take(i as int) =~= v@);
    true
}

proof fn lemma_utf8_len_prefix(s: Seq<char>, i: int)
    requires
        0 <= i <= s.len(),
    ensures
        utf8_len(s.take(i)) <= utf8_len(s),
    decreases s.len() - i,
{
    if i < s.len() {
        lemma_utf8_len_prefix(s, i + 1);
        lemma_utf8_len_push(s.take(i), s[i]);
        assert(s.take(i + 1) =~= s.take(i).push(s[i]));
    } else {
        assert(s.take(i) =~= s);
    }
}


/// Lines joined with a newline between each two.
pub open spec fn join_lines(lines: Seq<Seq<char>>) -> Seq<char>
    decreases lines.len(),
{
    if lines.len() == 0 {
        Seq::empty()
    } else if lines.len() == 1 {
        lines[0]
    } else {
        join_lines(lines.drop_last()) + "\n"@ + lines.last()
    }
}

/// The text of each string.
pub open spec fn views(v: Seq<String>) -> Seq<Seq<char>> {
    v.map_values(|s: String| s@)
}

/// The strings joined with a newline between each two.
pub fn join_with_newlines(lines: &Vec<String>) -> (s: String)
    ensures
        s@ == join_lines(views(lines@)),
{
    let mut s = String::new();
    let mut i: usize = 0;
    while i < lines.len()
        invariant
            i <= lines@.len(),
            s@ == join_lines(views(lines@.take(i as int))),
        decreases lines@.len() - i,
    {
        if i > 0 {
            s.append("\n");
        }
        s.append(lines[i].as_str());
        proof {
            let t = views(lines@.take(i + 1));
            assert(t.drop_last() =~= views(lines@.take(i as int)));
            assert(t.last() == lines@[i as int]@);
            if i == 0 {
                assert(views(lines@.take(0)) =~= Seq::<Seq<char>>::empty());
                assert(t.len() == 1);
            }
        }
        i = i + 1;
    }
    assert(lines@.take(i as int) =~= lines@);
    s
}

/// The string `a` followed by `b` and `c`.
pub fn concat3(a: &str, b: &str, c: &str) -> (s: String)
    ensures
        s@ == a@ + b@ + c@,
{
    let mut s = String::from_str(a);
    s.append(b);
    s.append(c);
    s
}

/// Parts joined with `sep` between each two.
pub open spec fn join_with(parts: Seq<Seq<char>>, sep: Seq<char>) -> Seq<char>
    decreases parts.len(),
{
    if parts.len() == 0 {
        Seq::empty()
    } else if parts.len() == 1 {
        parts[0]
    } else {
        join_with(parts.drop_last(), sep) + sep + parts.last()
    }
}

/// The strings joined with `sep` between each two (std's `join`).
pub fn join_strings(parts: &Vec<String>, sep: &str) -> (s: String)
    ensures
        s@ == join_with(views(parts@), sep@),
{
    let mut s = String::new();
    let mut i: usize = 0;
    while i < parts.len()
        invariant
            i <= parts@.len(),
            s@ == join_with(views(parts@.take(i as int)), sep@),
        decreases parts@.len() - i,
    {
        if i > 0 {
            s.append(sep);
        }
        s.append(parts[i].as_str());
        proof {
            let t = views(parts@.take(i + 1));
            assert(t.drop_last() =~= views(parts@.take(i as int)));
            assert(t.last() == parts@[i as int]@);
            if i == 0 {
                assert(views(parts@.take(0)) =~= Seq::<Seq<char>>::empty());
                assert(t.len() == 1);
            }
        }
        i = i + 1;
    }
    assert(parts@.take(i as int) =~= parts@);
    s
}

/// Whether `char::is_whitespace` holds of a character (Unicode's
/// White_Space property).
pub uninterp spec fn char_is_whitespace(c: char) -> bool;

/// Whether a character is ASCII whitespace as Unicode counts it: space,
/// tab, line feed, vertical tab, form feed or carriage return.
pub open spec fn ascii_whitespace(c: char) -> bool {
    c == ' ' || c == '\t' || c == '\n' || c == '\u{b}' || c == '\u{c}' || c == '\r'
}

/// Whether a character is whitespace: for ASCII characters the six
/// whitespace characters, for others as Unicode's White_Space property
/// says.
pub open spec fn whitespace(c: char) -> bool {
    if c <= '\u{7f}' {
        ascii_whitespace(c)
    } else {
        char_is_whitespace(c)
    }
}

/// std's `char::is_whitespace`. Its result is named; for ASCII characters
/// it holds exactly of the six whitespace characters that the White_Space
/// property lists among them. Nothing is said of other characters.
#[verifier::external_body]
pub fn is_whitespace(c: char) -> (b: bool)
    ensures
        b == char_is_whitespace(c),
        c <= '\u{7f}' ==> (b == ascii_whitespace(c)),
        b == whitespace(c),
{
    c.is_whitespace()
}

/// What `str::to_lowercase` gives for a text (Unicode's lowercase
/// mapping).
pub uninterp spec fn lowercase_text(s: Seq<char>) -> Seq<char>;

/// An ASCII character in lowercase: an uppercase letter becomes its
/// lowercase letter, every other character stays.
pub open spec fn ascii_lower_char(c: char) -> char {
    if 'A' <= c <= 'Z' {
        ((c as int) + 32) as char
    } else {
        c
    }
}

/// Whether every character of a text is ASCII.
pub open spec fn is_ascii_text(s: Seq<char>) -> bool {
    forall|i: int| 0 <= i < s.len() ==> #[trigger] s[i] <= '\u{7f}'
}

/// A text in lowercase: ASCII text letter by letter, other text by
/// Unicode's lowercase mapping.
pub open spec fn lowercase(s: Seq<char>) -> Seq<char> {
    if is_ascii_text(s) {
        s.map_values(|c: char| ascii_lower_char(c))
    } else {
        lowercase_text(s)
    }
}

/// std's `str::to_lowercase`. Its result is named: a function of the text
/// alone, as the mapping does not depend on a locale. Of ASCII text the
/// result is stated: uppercase letters become lowercase, the rest stays
/// (for ASCII, Unicode's lowercase mapping is just that).
#[verifier::external_body]
pub fn to_lowercase(s: &str) -> (r: String)
    ensures
        r@ == lowercase_text(s@),
        is_ascii_text(s@) ==> r@ == s@.map_values(|c: char| ascii_lower_char(c)),
        r@ == lowercase(s@),
{
    s.to_lowercase()
}

/// The first position from `i` on where `p` occurs in `t`, or -1 (an empty
/// pattern occurs at `i`).
pub open spec fn find_from(t: Seq<char>, p: Seq<char>, i: int) -> int
    decreases t.len() - i,
{
    if i < 0 || i + p.len() > t.len() {
        -1
    } else if t.subrange(i, i + p.len()) == p {
        i
    } else if i >= t.len() {
        -1
    } else {
        find_from(t, p, i + 1)
    }
}

/// Whether `p` occurs in `t`.
pub open spec fn contains_text(t: Seq<char>, p: Seq<char>) -> bool {
    find_from(t, p, 0) >= 0
}

pub proof fn lemma_find_from(t: Seq<char>, p: Seq<char>, i: int)
    requires
        0 <= i,
    ensures
        find_from(t, p, i) == -1 || (i <= find_from(t, p, i) && find_from(t, p, i) + p.len() <= t.len()
            && t.subrange(find_from(t, p, i), find_from(t, p, i) + p.len()) == p),
    decreases t.len() - i,
{
    if i + p.len() <= t.len() && t.subrange(i, i + p.len()) != p && i < t.len() {
        lemma_find_from(t, p, i + 1);
    }
}

/// Whether `p` occurs in `t` at position `i`.
fn occurs_at(t: &Vec<char>, p: &Vec<char>, i: usize) -> (b: bool)
    requires
        i + p@.len() <= t@.len(),
    ensures
        b == (t@.subrange(i as int, i + p@.len()) == p@),
{
    let mut k: usize = 0;
    while k < p.len()
        invariant
            i + p@.len() <= t@.len() == t.len(),
            k <= p@.len(),
            forall|j: int| 0 <= j < k ==> t@[i + j] == p@[j],
        decreases p@.len() - k,
    {
        if t[i + k] != p[k] {
            proof {
                assert(t@.subrange(i as int, i + p@.len())[k as int] != p@[k as int]);
            }
            return false;
        }
        k = k + 1;
    }
    proof {
        assert(t@.subrange(i as int, i + p@.len()) =~= p@);
    }
    true
}

/// The first position from `from` on where `p` occurs in `t` (std's
/// `str::find` on a suffix, by characters).
pub fn find_text(t: &Vec<char>, p: &Vec<char>, from: usize) -> (r: Option<usize>)
    ensures
        match r {
            Some(i) => i == find_from(t@, p@, from as int),
            None => find_from(t@, p@, from as int) == -1,
        },
{
    let mut i = from;
    while i <= t.len() && p.len() <= t.len() - i
        invariant
            from <= i,
            find_from(t@, p@, from as int) == find_from(t@, p@, i as int),
            t@.len() == t.len(),
        decreases t@.len() + 1 - i,
    {
        proof {
            if p@.len() == 0 {
                assert(t@.subrange(i as int, i as int) =~= p@);
            }
        }
        if occurs_at(t, p, i) {
            return Some(i);
        }
        i = i + 1;
    }
    None
}

/// Text with its leading whitespace taken off.
pub open spec fn trim_start_ws(s: Seq<char>) -> Seq<char>
    decreases s.len(),
{
    if s.len() > 0 && whitespace(s[0]) {
        trim_start_ws(s.drop_first())
    } else {
        s
    }
}

/// Text with its trailing whitespace taken off.
pub open spec fn trim_end_ws(s: Seq<char>) -> Seq<char>
    decreases s.len(),
{
    if s.len() > 0 && whitespace(s.last()) {
        trim_end_ws(s.drop_last())
    } else {
        s
    }
}

/// Text with leading and trailing whitespace taken off (std's `str::trim`).
pub open spec fn trim_ws(s: Seq<char>) -> Seq<char> {
    trim_end_ws(trim_start_ws(s))
}

/// Where `v[from..to]` starts once its leading whitespace is skipped.
pub fn skip_whitespace(v: &Vec<char>, from: usize, to: usize) -> (a: usize)
    requires
        from <= to <= v@.len(),
    ensures
        from <= a <= to,
        v@.subrange(a as int, to as int) == trim_start_ws(v@.subrange(from as int, to as int)),
{
    let mut a = from;
    while a < to && is_whitespace(v[a])
        invariant
            from <= a <= to <= v@.len(),
            trim_start_ws(v@.subrange(from as int, to as int)) == trim_start_ws(v@.subrange(a as int, to as int)),
        decreases to - a,
    {
        proof {
            assert(v@.subrange(a as int, to as int).drop_first() =~= v@.subrange(a + 1, to as int));
        }
        a = a + 1;
    }
    a
}

/// Where `v[from..to]` ends once its trailing whitespace is dropped.
pub fn drop_whitespace(v: &Vec<char>, from: usize, to: usize) -> (b: usize)
    requires
        from <= to <= v@.len(),
    ensures
        from <= b <= to,
        v@.subrange(from as int, b as int) == trim_end_ws(v@.subrange(from as int, to as int)),
{
    let mut b = to;
    while b > from && is_whitespace(v[b - 1])
        invariant
            from <= b <= to <= v@.len(),
            trim_end_ws(v@.subrange(from as int, to as int)) == trim_end_ws(v@.subrange(from as int, b as int)),
        decreases b - from,
    {
        proof {
            assert(v@.subrange(from as int, b as int).drop_last() =~= v@.subrange(from as int, b - 1));
        }
        b = b - 1;
    }
    b
}

/// The value of decimal digits read after `acc`, negative ones subtracted,
/// or the message of the first digit that is none or that leaves the range
/// of `i32`.
pub open spec fn digits_value(d: Seq<char>, neg: bool, acc: int) -> Result<int, Seq<char>>
    decreases d.len(),
{
    if d.len() == 0 {
        Ok(acc)
    } else if !('0' <= d[0] <= '9') {
        Err("invalid digit found in string"@)
    } else {
        let digit = d[0] as int - 48;
        let v = if neg { acc * 10 - digit } else { acc * 10 + digit };
        if v < i32::MIN {
            Err("number too small to fit in target type"@)
        } else if v > i32::MAX {
            Err("number too large to fit in target type"@)
        } else {
            digits_value(d.drop_first(), neg, v)
        }
    }
}

/// What `str::parse::<i32>` gives for a text: an optional sign, then
/// decimal digits; or the message of its error.
pub open spec fn parse_i32_text(s: Seq<char>) -> Result<i32, Seq<char>> {
    if s.len() == 0 {
        Err("cannot parse integer from empty string"@)
    } else if (s[0] == '+' || s[0] == '-') && s.len() == 1 {
        Err("invalid digit found in string"@)
    } else {
        let signed = s[0] == '+' || s[0] == '-';
        let digits = if signed { s.drop_first() } else { s };
        match digits_value(digits, s[0] == '-', 0) {
            Ok(v) => Ok(v as i32),
            Err(m) => Err(m),
        }
    }
}

proof fn lemma_digits_range(d: Seq<char>, neg: bool, acc: int)
    requires
        i32::MIN <= acc <= i32::MAX,
    ensures
        digits_value(d, neg, acc) matches Ok(v) ==> i32::MIN <= v <= i32::MAX,
    decreases d.len(),
{
    if d.len() > 0 && '0' <= d[0] <= '9' {
        let digit = d[0] as int - 48;
        let v = if neg { acc * 10 - digit } else { acc * 10 + digit };
        if i32::MIN <= v <= i32::MAX {
            lemma_digits_range(d.drop_first(), neg, v);
        }
    }
}

/// The `i32` that `v[from..to]` spells (std's `str::parse::<i32>`), or the
/// message of its error
pub fn parse_i32(v: &Vec<char>, from: usize, to: usize) -> (r: Result<i32, String>)
    requires
        from <= to <= v@.len(),
    ensures
        match parse_i32_text(v@.subrange(from as int, to as int)) {
            Ok(x) => r == Ok::<i32, String>(x),
            Err(m) => r matches Err(e) && e@ == m,
        },
{
    let ghost s = v@.subrange(from as int, to as int);
    if from == to {
        return Err(String::from_str("cannot parse integer from empty string"));
    }
    let first = v[from];
    if (first == '+' || first == '-') && to - from == 1 {
        return Err(String::from_str("invalid digit found in string"));
    }
    let neg = first == '-';
    let start = if first == '+' || first == '-' { from + 1 } else { from };
    proof {
        if first == '+' || first == '-' {
            assert(s.drop_first() =~= v@.subrange(start as int, to as int));
        } else {
            assert(s =~= v@.subrange(start as int, to as int));
        }
    }
    let ghost digits = v@.subrange(start as int, to as int);
    assert(parse_i32_text(s) == match digits_value(digits, neg, 0) {
        Ok(x) => Ok::<i32, Seq<char>>(x as i32),
        Err(m) => Err(m),
    });
    let mut acc: i64 = 0;
    let mut i = start;
    while i < to
        invariant
            start <= i <= to <= v@.len(),
            i32::MIN <= acc <= i32::MAX,
            digits == v@.subrange(start as int, to as int),
            s == v@.subrange(from as int, to as int),
            parse_i32_text(s) == match digits_value(digits, neg, 0) {
                Ok(x) => Ok::<i32, Seq<char>>(x as i32),
                Err(m) => Err(m),
            },
            digits_value(digits, neg, 0) == digits_value(v@.subrange(i as int, to as int), neg, acc as int),
        decreases to - i,
    {
        let c = v[i];
        proof {
            assert(v@.subrange(i as int, to as int)[0] == c);
            assert(v@.subrange(i as int, to as int).drop_first() =~= v@.subrange(i + 1, to as int));
        }
        if !('0' <= c && c <= '9') {
            return Err(String::from_str("invalid digit found in string"));
        }
        let digit = (c as u32 - 48) as i64;
        let next = if neg { acc * 10 - digit } else { acc * 10 + digit };
        if next < -2147483648 {
            return Err(String::from_str("number too small to fit in target type"));
        }
        if next > 2147483647 {
            return Err(String::from_str("number too large to fit in target type"));
        }
        acc = next;
        i = i + 1;
    }
    proof {
        assert(v@.subrange(i as int, to as int) =~= Seq::<char>::empty());
    }
    Ok(acc as i32)
}

} // verus!
