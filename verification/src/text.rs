//! Text as sequences of characters: the splitting, trimming, comparing and
//! number reading that the rest of the library states its contracts with.

use vstd::prelude::*;

verus! {

/// The characters with the Unicode `White_Space` property.
pub open spec fn is_space(c: char) -> bool {
    let n = c as u32;
    ||| 0x09 <= n <= 0x0d
    ||| n == 0x20
    ||| n == 0x85
    ||| n == 0xa0
    ||| n == 0x1680
    ||| 0x2000 <= n <= 0x200a
    ||| n == 0x2028
    ||| n == 0x2029
    ||| n == 0x202f
    ||| n == 0x205f
    ||| n == 0x3000
}

/// Whether `c` has the Unicode `White_Space` property.
pub fn is_whitespace(c: char) -> (r: bool)
    ensures
        r == is_space(c),
{
    let n: u32 = c as u32;
    (0x09 <= n && n <= 0x0d) || n == 0x20 || n == 0x85 || n == 0xa0 || n == 0x1680 || (0x2000 <= n
        && n <= 0x200a) || n == 0x2028 || n == 0x2029 || n == 0x202f || n == 0x205f || n == 0x3000
}

/// `s` without its leading white space.
pub open spec fn trim_start(s: Seq<char>) -> Seq<char>
    decreases s.len(),
{
    if s.len() > 0 && is_space(s[0]) {
        trim_start(s.drop_first())
    } else {
        s
    }
}

/// `s` without its trailing white space.
pub open spec fn trim_end(s: Seq<char>) -> Seq<char>
    decreases s.len(),
{
    if s.len() > 0 && is_space(s.last()) {
        trim_end(s.drop_last())
    } else {
        s
    }
}

/// `s` without white space at either end.
pub open spec fn trimmed(s: Seq<char>) -> Seq<char> {
    trim_end(trim_start(s))
}

/// The characters of `s`, in order.
pub fn chars_of(s: &str) -> (r: Vec<char>)
    ensures
        r@ == s@,
{
    let mut out: Vec<char> = Vec::new();
    for c in it: s.chars()
        invariant
            out@ == it.seq().take(it.index()),
            it.seq() == s@,
    {
        out.push(c);
    }
    out
}

/// `char` at the end of a string.
///
/// Calls `String::push`, which appends the character and changes nothing else.
#[verifier::external_body]
pub(crate) fn push_char(s: &mut String, c: char)
    ensures
        final(s)@ == old(s)@.push(c),
{
    s.push(c)
}

/// Whether two strings hold the same characters.
pub fn same_text(a: &str, b: &str) -> (r: bool)
    ensures
        r == (a@ == b@),
{
    let x = a.as_bytes();
    let y = b.as_bytes();
    proof {
        vstd::utf8::encode_utf8_decode_utf8(a@);
        vstd::utf8::encode_utf8_decode_utf8(b@);
    }
    if x.len() != y.len() {
        return false;
    }
    let mut i: usize = 0;
    while i < x.len()
        invariant
            x@.len() == y@.len(),
            0 <= i <= x@.len(),
            x@ == vstd::utf8::encode_utf8(a@),
            y@ == vstd::utf8::encode_utf8(b@),
            forall|k: int| 0 <= k < i ==> x@[k] == y@[k],
        decreases x@.len() - i,
    {
        if x[i] != y[i] {
            return false;
        }
        i = i + 1;
    }
    assert(x@ =~= y@);
    true
}

/// The string with the characters of `v` from `from` up to `to`.
pub fn string_between(v: &[char], from: usize, to: usize) -> (r: String)
    requires
        from <= to <= v@.len(),
    ensures
        r@ == v@.subrange(from as int, to as int),
{
    let mut out = String::new();
    let mut i: usize = from;
    while i < to
        invariant
            from <= i <= to <= v@.len(),
            out@ == v@.subrange(from as int, i as int),
        decreases to - i,
    {
        push_char(&mut out, v[i]);
        i = i + 1;
    }
    out
}

/// `a` followed by `b`.
pub fn concat(a: &str, b: &str) -> (r: String)
    ensures
        r@ == a@ + b@,
{
    let mut out = a.to_string();
    out.append(b);
    out
}

proof fn lemma_trim_start_skip(s: Seq<char>, i: int)
    requires
        0 <= i <= s.len(),
        forall|k: int| 0 <= k < i ==> is_space(s[k]),
    ensures
        trim_start(s) == trim_start(s.skip(i)),
    decreases i,
{
    if i == 0 {
        assert(s.skip(0) =~= s);
    } else {
        lemma_trim_start_skip(s.drop_first(), i - 1);
        assert(s.drop_first().skip(i - 1) =~= s.skip(i));
    }
}

proof fn lemma_trim_end_take(s: Seq<char>, j: int)
    requires
        0 <= j <= s.len(),
        forall|k: int| j <= k < s.len() ==> is_space(s[k]),
    ensures
        trim_end(s) == trim_end(s.take(j)),
    decreases s.len() - j,
{
    if j == s.len() {
        assert(s.take(j) =~= s);
    } else {
        lemma_trim_end_take(s.drop_last(), j);
        assert(s.drop_last().take(j) =~= s.take(j));
    }
}

/// `s` without white space at either end.
pub fn trim(s: &str) -> (r: String)
    ensures
        r@ == trimmed(s@),
{
    let v = chars_of(s);
    let mut i: usize = 0;
    while i < v.len() && is_whitespace(v[i])
        invariant
            0 <= i <= v@.len(),
            forall|k: int| 0 <= k < i ==> is_space(#[trigger] v@[k]),
        decreases v@.len() - i,
    {
        i = i + 1;
    }
    let mut j: usize = v.len();
    while i < j && is_whitespace(v[j - 1])
        invariant
            i <= j <= v@.len(),
            forall|k: int| j <= k < v@.len() ==> is_space(#[trigger] v@[k]),
        decreases j,
    {
        j = j - 1;
    }
    proof {
        lemma_trim_start_skip(v@, i as int);
        lemma_trim_end_take(v@.skip(i as int), j - i);
        assert(v@.skip(i as int).take(j - i) =~= v@.subrange(i as int, j as int));
        if i < j {
            assert(v@.skip(i as int)[0] == v@[i as int]);
            assert(v@.subrange(i as int, j as int).last() == v@[j - 1]);
        } else {
            assert(v@.skip(i as int).take(0) =~= Seq::<char>::empty());
            if i < v@.len() {
                assert(is_space(v@[i as int]));
            }
        }
    }
    string_between(v.as_slice(), i, j)
}

/// How many characters of `s` come before its first white space.
pub open spec fn word_len(s: Seq<char>) -> nat
    decreases s.len(),
{
    if s.len() == 0 || is_space(s[0]) {
        0
    } else {
        1 + word_len(s.drop_first())
    }
}

pub proof fn lemma_word_len(s: Seq<char>)
    ensures
        word_len(s) <= s.len(),
        forall|k: int| 0 <= k < word_len(s) ==> !is_space(#[trigger] s[k]),
        word_len(s) < s.len() ==> is_space(s[word_len(s) as int]),
    decreases s.len(),
{
    if s.len() > 0 && !is_space(s[0]) {
        let t = s.drop_first();
        lemma_word_len(t);
        assert forall|k: int| 0 <= k < word_len(s) implies !is_space(#[trigger] s[k]) by {
            if k > 0 {
                assert(t[k - 1] == s[k]);
            }
        }
        if word_len(s) < s.len() {
            assert(t[word_len(t) as int] == s[word_len(s) as int]);
        }
    }
}

pub(crate) proof fn lemma_word_len_is(s: Seq<char>, n: int)
    requires
        0 <= n <= s.len(),
        forall|k: int| 0 <= k < n ==> !is_space(#[trigger] s[k]),
        n < s.len() ==> is_space(s[n]),
    ensures
        word_len(s) == n,
{
    lemma_word_len(s);
}

pub proof fn lemma_trim_start_len(s: Seq<char>)
    ensures
        trim_start(s).len() <= s.len(),
        trim_start(s).len() > 0 ==> !is_space(trim_start(s)[0]),
    decreases s.len(),
{
    if s.len() > 0 && is_space(s[0]) {
        lemma_trim_start_len(s.drop_first());
    }
}

/// The words of `s`: its longest runs of characters that are not white space.
pub open spec fn words(s: Seq<char>) -> Seq<Seq<char>>
    decreases s.len(),
{
    let t = trim_start(s);
    if t.len() == 0 {
        Seq::empty()
    } else {
        proof {
            lemma_trim_start_len(s);
            lemma_word_len(t);
        }
        seq![t.take(word_len(t) as int)] + words(t.skip(word_len(t) as int))
    }
}

/// The words of `s`, in order.
pub fn split_whitespace(s: &str) -> (r: Vec<String>)
    ensures
        r.deep_view() == words(s@),
{
    let v = chars_of(s);
    let mut out: Vec<String> = Vec::new();
    let mut i: usize = 0;
    assert(v@.skip(0) =~= v@);
    assert(out.deep_view() =~= Seq::<Seq<char>>::empty());
    assert(out.deep_view() + words(v@.skip(0)) =~= words(s@));
    loop
        invariant_except_break
            0 <= i <= v@.len(),
            v@ == s@,
            out.deep_view() + words(v@.skip(i as int)) == words(s@),
        ensures
            out.deep_view() == words(s@),
        decreases v@.len() - i,
    {
        let ghost i0 = i as int;
        let ghost before = v@.skip(i0);
        while i < v.len() && is_whitespace(v[i])
            invariant
                i0 <= i <= v@.len(),
                forall|k: int| i0 <= k < i ==> is_space(#[trigger] v@[k]),
            decreases v@.len() - i,
        {
            i = i + 1;
        }
        proof {
            assert forall|k: int| 0 <= k < i - i0 implies is_space(#[trigger] before[k]) by {
                assert(before[k] == v@[i0 + k]);
            }
            lemma_trim_start_skip(before, i - i0);
            assert(before.skip(i - i0) =~= v@.skip(i as int));
        }
        if i >= v.len() {
            proof {
                assert(v@.skip(i as int) =~= Seq::<char>::empty());
                assert(out.deep_view() + words(before) =~= out.deep_view());
            }
            break;
        }
        let ghost t = v@.skip(i as int);
        let start: usize = i;
        assert(t[0] == v@[i as int]);
        assert(trim_start(t) == t);
        while i < v.len() && !is_whitespace(v[i])
            invariant
                start <= i <= v@.len(),
                forall|k: int| start <= k < i ==> !is_space(#[trigger] v@[k]),
            decreases v@.len() - i,
        {
            i = i + 1;
        }
        let ghost n = i - start;
        proof {
            assert forall|k: int| 0 <= k < n implies !is_space(#[trigger] t[k]) by {
                assert(t[k] == v@[start + k]);
            }
            if n < t.len() {
                assert(t[n] == v@[i as int]);
            }
            lemma_word_len_is(t, n);
            assert(t.take(n) =~= v@.subrange(start as int, i as int));
            assert(t.skip(n) =~= v@.skip(i as int));
            assert(n > 0) by {
                assert(!is_space(t[0]));
            }
        }
        let ghost head = out.deep_view();
        let word = string_between(v.as_slice(), start, i);
        out.push(word);
        proof {
            assert(out.deep_view() =~= head.push(t.take(n)));
            assert(words(before) == seq![t.take(n)] + words(t.skip(n)));
            assert(out.deep_view() + words(v@.skip(i as int)) =~= head + (seq![t.take(n)] + words(
                t.skip(n),
            )));
        }
    }
    out
}

/// The pieces of `s` between the occurrences of `sep`: one more piece than
/// there are occurrences.
pub open spec fn pieces(s: Seq<char>, sep: char) -> Seq<Seq<char>>
    decreases s.len(),
{
    if s.len() == 0 {
        seq![Seq::<char>::empty()]
    } else {
        let p = pieces(s.drop_last(), sep);
        if s.last() == sep {
            p.push(Seq::<char>::empty())
        } else {
            p.drop_last().push(p.last().push(s.last()))
        }
    }
}

pub proof fn lemma_pieces_nonempty(s: Seq<char>, sep: char)
    ensures
        pieces(s, sep).len() >= 1,
    decreases s.len(),
{
    if s.len() > 0 {
        lemma_pieces_nonempty(s.drop_last(), sep);
    }
}

/// The pieces of `s` between the occurrences of `sep`.
pub fn split_on(s: &str, sep: char) -> (r: Vec<String>)
    ensures
        r.deep_view() == pieces(s@, sep),
        r@.len() >= 1,
{
    let v = chars_of(s);
    let mut out: Vec<String> = Vec::new();
    let mut piece = String::new();
    let mut i: usize = 0;
    assert(v@.take(0) =~= Seq::<char>::empty());
    assert(out.deep_view().push(piece@) =~= pieces(v@.take(0), sep));
    while i < v.len()
        invariant
            0 <= i <= v@.len(),
            out.deep_view().push(piece@) == pieces(v@.take(i as int), sep),
        decreases v@.len() - i,
    {
        let c = v[i];
        let ghost done = out.deep_view();
        let ghost p = pieces(v@.take(i as int), sep);
        proof {
            assert(v@.take(i + 1).drop_last() =~= v@.take(i as int));
            assert(v@.take(i + 1).last() == c);
            assert(p.last() == piece@);
            assert(p.drop_last() =~= done);
        }
        if c == sep {
            out.push(piece);
            piece = String::new();
            assert(out.deep_view() =~= p);
            assert(out.deep_view().push(piece@) =~= pieces(v@.take(i + 1), sep));
        } else {
            push_char(&mut piece, c);
            assert(out.deep_view().push(piece@) =~= pieces(v@.take(i + 1), sep));
        }
        i = i + 1;
    }
    assert(v@.take(v@.len() as int) =~= v@);
    let ghost done = out.deep_view();
    let ghost lastp = piece@;
    out.push(piece);
    assert(out.deep_view() =~= done.push(lastp));
    out
}

/// Whether `c` is one of `0` to `9`.
pub open spec fn is_digit(c: char) -> bool {
    '0' as u32 <= c as u32 <= '9' as u32
}

/// Whether `c` is one of `0` to `9`.
pub fn is_ascii_digit(c: char) -> (r: bool)
    ensures
        r == is_digit(c),
{
    let n: u32 = c as u32;
    48 <= n && n <= 57
}

/// Whether every character of `s` is a digit.
pub open spec fn all_digits(s: Seq<char>) -> bool {
    forall|i: int| 0 <= i < s.len() ==> is_digit(#[trigger] s[i])
}

/// The number that the digits `s` write in base ten.
pub open spec fn digits_value(s: Seq<char>) -> nat
    decreases s.len(),
{
    if s.len() == 0 {
        0
    } else {
        digits_value(s.drop_last()) * 10 + (s.last() as u32 - '0' as u32) as nat
    }
}

/// The integer that `s` writes: an optional sign and at least one digit, and
/// nothing else.
pub open spec fn integer_of(s: Seq<char>) -> Option<int> {
    let signed = s.len() > 0 && (s[0] == '-' || s[0] == '+');
    let digits = if signed {
        s.drop_first()
    } else {
        s
    };
    if digits.len() == 0 || !all_digits(digits) {
        None
    } else if s[0] == '-' {
        Some(-(digits_value(digits) as int))
    } else {
        Some(digits_value(digits) as int)
    }
}

/// The integer that `s` writes, where it fits in 64 bits with sign.
pub open spec fn i64_of(s: Seq<char>) -> Option<i64> {
    match integer_of(s) {
        Some(v) => if i64::MIN <= v <= i64::MAX {
            Some(v as i64)
        } else {
            None
        },
        None => None,
    }
}

/// Reads a decimal integer: an optional sign and at least one digit, and
/// nothing else.
pub fn parse_i64(s: &str) -> (r: Option<i64>)
    ensures
        r == i64_of(s@),
{
    let v = chars_of(s);
    if v.len() == 0 {
        return None;
    }
    let negative = v[0] == '-';
    let start: usize = if negative || v[0] == '+' {
        1
    } else {
        0
    };
    let ghost digits = v@.skip(start as int);
    assert(digits =~= (if start == 1 {
        s@.drop_first()
    } else {
        s@
    }));
    if v.len() == start {
        return None;
    }
    let limit: u64 = 0x8000_0000_0000_0000;
    let mut value: u64 = 0;
    let mut over = false;
    let mut i: usize = start;
    assert(digits.take(0) =~= Seq::<char>::empty());
    while i < v.len()
        invariant
            start <= i <= v@.len(),
            digits == v@.skip(start as int),
            limit == 0x8000_0000_0000_0000,
            v@ == s@,
            integer_of(s@) == (if !all_digits(digits) || digits.len() == 0 {
                None
            } else if negative {
                Some(-(digits_value(digits) as int))
            } else {
                Some(digits_value(digits) as int)
            }),
            forall|k: int| 0 <= k < i - start ==> is_digit(#[trigger] digits[k]),
            !over ==> value == digits_value(digits.take(i - start)) && value <= limit,
            over ==> digits_value(digits.take(i - start)) > limit,
        decreases v@.len() - i,
    {
        let c = v[i];
        assert(digits[i - start] == c);
        if !is_ascii_digit(c) {
            assert(!all_digits(digits));
            return None;
        }
        proof {
            assert(digits.take(i - start + 1).drop_last() =~= digits.take(i - start));
            assert(digits.take(i - start + 1).last() == c);
        }
        let d: u64 = (c as u32 - 48) as u64;
        assert(digits_value(digits.take(i - start + 1)) == digits_value(digits.take(i - start)) * 10 + d);
        if !over {
            if value <= (limit - d) / 10 {
                value = value * 10 + d;
            } else {
                over = true;
            }
        }
        i = i + 1;
    }
    assert(digits.take(digits.len() as int) =~= digits);
    if over {
        None
    } else if negative {
        if value == limit {
            Some(i64::MIN)
        } else {
            Some(-(value as i64))
        }
    } else if value == limit {
        None
    } else {
        Some(value as i64)
    }
}

/// Whether `a` comes before `b`: in the order of their code points, which is
/// also the order of their UTF-8 bytes.
pub open spec fn text_lt(a: Seq<char>, b: Seq<char>) -> bool
    decreases b.len(),
{
    if b.len() == 0 {
        false
    } else if a.len() == 0 {
        true
    } else if a[0] == b[0] {
        text_lt(a.drop_first(), b.drop_first())
    } else {
        (a[0] as int) < (b[0] as int)
    }
}

proof fn lemma_code_point(c: char)
    ensures
        c as u32 == c as int,
{
}

/// Whether `a` comes before `b` in the order of their code points.
pub fn text_before(a: &str, b: &str) -> (r: bool)
    ensures
        r == text_lt(a@, b@),
{
    let x = chars_of(a);
    let y = chars_of(b);
    let mut i: usize = 0;
    assert(x@.skip(0) =~= x@);
    assert(y@.skip(0) =~= y@);
    while i < x.len() && i < y.len()
        invariant
            0 <= i <= x@.len(),
            0 <= i <= y@.len(),
            text_lt(a@, b@) == text_lt(x@.skip(i as int), y@.skip(i as int)),
        decreases x@.len() - i,
    {
        let ghost s = x@.skip(i as int);
        let ghost t = y@.skip(i as int);
        assert(s[0] == x@[i as int] && t[0] == y@[i as int]);
        assert(s.drop_first() =~= x@.skip(i + 1));
        assert(t.drop_first() =~= y@.skip(i + 1));
        if x[i] != y[i] {
            proof {
                lemma_code_point(x@[i as int]);
                lemma_code_point(y@[i as int]);
            }
            return (x[i] as u32) < (y[i] as u32);
        }
        i = i + 1;
    }
    i < y.len()
}

/// No text comes before itself.
pub proof fn text_lt_irreflexive(a: Seq<char>)
    ensures
        !text_lt(a, a),
    decreases a.len(),
{
    if a.len() > 0 {
        text_lt_irreflexive(a.drop_first());
    }
}

/// Of two different texts, one comes before the other.
pub proof fn text_lt_total(a: Seq<char>, b: Seq<char>)
    ensures
        text_lt(a, b) || text_lt(b, a) || a == b,
    decreases b.len(),
{
    if a.len() > 0 && b.len() > 0 {
        if a[0] == b[0] {
            text_lt_total(a.drop_first(), b.drop_first());
            if a.drop_first() == b.drop_first() {
                assert(a =~= seq![a[0]] + a.drop_first());
                assert(b =~= seq![b[0]] + b.drop_first());
            }
        }
    } else if a.len() == 0 && b.len() == 0 {
        assert(a =~= b);
    }
}

/// What comes before a text comes before all that it comes before.
pub proof fn text_lt_transitive(a: Seq<char>, b: Seq<char>, c: Seq<char>)
    requires
        text_lt(a, b),
        text_lt(b, c),
    ensures
        text_lt(a, c),
    decreases c.len(),
{
    if a.len() > 0 && a[0] == b[0] && b[0] == c[0] {
        text_lt_transitive(a.drop_first(), b.drop_first(), c.drop_first());
    }
}

/// Whether `needle` occurs in `hay`.
pub open spec fn has_text(hay: Seq<char>, needle: Seq<char>) -> bool {
    exists|i: int|
        0 <= i <= hay.len() - needle.len() && #[trigger] hay.subrange(i, i + needle.len())
            == needle
}

/// Whether `needle` occurs in `hay`.
pub fn contains(hay: &str, needle: &str) -> (r: bool)
    ensures
        r == has_text(hay@, needle@),
{
    let h = chars_of(hay);
    let n = chars_of(needle);
    if n.len() > h.len() {
        return false;
    }
    if n.len() == 0 {
        assert(h@.subrange(0int, 0int + n@.len()) =~= n@);
        return true;
    }
    let last: usize = h.len() - n.len();
    let mut i: usize = 0;
    while i <= last
        invariant
            h@ == hay@,
            n@ == needle@,
            0 < n@.len(),
            last == h.len() - n.len(),
            0 <= i <= last + 1,
            forall|k: int| 0 <= k < i ==> #[trigger] h@.subrange(k, k + n@.len()) != n@,
        decreases last + 1 - i,
    {
        let mut j: usize = 0;
        while j < n.len() && h[i + j] == n[j]
            invariant
                0 <= i <= last,
                last == h.len() - n.len(),
                0 <= j <= n@.len(),
                forall|k: int| 0 <= k < j ==> h@[i + k] == n@[k],
            decreases n@.len() - j,
        {
            j = j + 1;
        }
        if j == n.len() {
            assert(h@.subrange(i as int, i + n@.len()) =~= n@);
            return true;
        }
        assert(h@.subrange(i as int, i + n@.len())[j as int] != n@[j as int]);
        i = i + 1;
    }
    false
}

/// Each of `parts` after a `sep` of its own.
pub open spec fn each_after(parts: Seq<Seq<char>>, sep: Seq<char>) -> Seq<char>
    decreases parts.len(),
{
    if parts.len() == 0 {
        Seq::empty()
    } else {
        sep + parts[0] + each_after(parts.drop_first(), sep)
    }
}

/// `parts` in order, with `sep` between every two neighbours.
pub open spec fn joined(parts: Seq<Seq<char>>, sep: Seq<char>) -> Seq<char> {
    if parts.len() == 0 {
        Seq::empty()
    } else {
        parts[0] + each_after(parts.drop_first(), sep)
    }
}

/// `parts` in order, with `sep` between every two neighbours.
pub fn join(parts: &[String], sep: &str) -> (r: String)
    ensures
        r@ == joined(parts.deep_view(), sep@),
{
    let mut out = String::new();
    if parts.len() == 0 {
        return out;
    }
    let ghost all = parts.deep_view();
    out.append(parts[0].as_str());
    let mut i: usize = 1;
    assert(all.skip(1) =~= all.drop_first());
    while i < parts.len()
        invariant
            1 <= i <= parts@.len(),
            all == parts.deep_view(),
            out@ + each_after(all.skip(i as int), sep@) == joined(all, sep@),
        decreases parts@.len() - i,
    {
        let ghost rest = all.skip(i as int);
        let ghost head = out@;
        assert(rest[0] == parts@[i as int]@);
        assert(rest.drop_first() =~= all.skip(i + 1));
        out.append(sep);
        out.append(parts[i].as_str());
        assert(out@ + each_after(all.skip(i + 1), sep@) =~= head + (sep@ + rest[0] + each_after(
            rest.drop_first(),
            sep@,
        )));
        i = i + 1;
    }
    assert(all.skip(all.len() as int) =~= Seq::<Seq<char>>::empty());
    assert(out@ + each_after(all.skip(i as int), sep@) =~= out@);
    out
}

/// The digit that writes `n` in base ten, for `n` below ten.
pub open spec fn digit_char(n: nat) -> char {
    (48 + n) as char
}

/// The digits that write `n` in base ten, without leading zeros.
pub open spec fn nat_text(n: nat) -> Seq<char>
    decreases n,
{
    if n < 10 {
        seq![digit_char(n)]
    } else {
        nat_text(n / 10).push(digit_char(n % 10))
    }
}

/// `n` in base ten: a minus sign where it is negative, then its digits.
pub open spec fn int_text(n: int) -> Seq<char> {
    if n < 0 {
        seq!['-'] + nat_text((-n) as nat)
    } else {
        nat_text(n as nat)
    }
}

/// The last `width` digits of `n` in base ten, zeros in front where `n` is
/// shorter.
pub open spec fn padded(n: nat, width: nat) -> Seq<char>
    decreases width,
{
    if width == 0 {
        Seq::empty()
    } else {
        padded(n / 10, (width - 1) as nat).push(digit_char(n % 10))
    }
}

/// `n` in base ten, with zeros in front up to `width` digits.
pub open spec fn decimal_padding(n: nat, width: nat) -> Seq<char> {
    if nat_text(n).len() < width {
        padded(n, width)
    } else {
        nat_text(n)
    }
}

fn push_digits(out: &mut String, n: u64)
    ensures
        final(out)@ == old(out)@ + nat_text(n as nat),
    decreases n,
{
    let ghost before = out@;
    if n >= 10 {
        push_digits(out, n / 10);
    }
    let d: u8 = (n % 10) as u8;
    push_char(out, (48 + d) as char);
    assert(out@ =~= before + nat_text(n as nat));
}

/// `n` in base ten.
pub fn decimal(n: i64) -> (r: String)
    ensures
        r@ == int_text(n as int),
{
    let mut out = String::new();
    if n < 0 {
        push_char(&mut out, '-');
        let magnitude: u64 = if n == i64::MIN {
            0x8000_0000_0000_0000
        } else {
            (-n) as u64
        };
        push_digits(&mut out, magnitude);
    } else {
        push_digits(&mut out, n as u64);
    }
    assert(out@ =~= int_text(n as int));
    out
}

/// `c` in lower case where it is one of `A` to `Z`.
pub open spec fn lower_ascii(c: char) -> char {
    if 'A' as u32 <= c as u32 <= 'Z' as u32 {
        (c as u32 + 32) as char
    } else {
        c
    }
}

/// `c` in lower case where it is one of `A` to `Z`.
pub fn to_lower_ascii(c: char) -> (r: char)
    ensures
        r == lower_ascii(c),
{
    let n: u32 = c as u32;
    if 65 <= n && n <= 90 {
        (n as u8 + 32) as char
    } else {
        c
    }
}

/// `s` with `A` to `Z` in lower case.
pub open spec fn ascii_lowered(s: Seq<char>) -> Seq<char> {
    s.map_values(|c: char| lower_ascii(c))
}

/// Whether two texts are equal but for the case of `A` to `Z`.
pub fn same_ignoring_case(a: &str, b: &str) -> (r: bool)
    ensures
        r == (ascii_lowered(a@) == ascii_lowered(b@)),
{
    let x = chars_of(a);
    let y = chars_of(b);
    if x.len() != y.len() {
        assert(ascii_lowered(a@).len() != ascii_lowered(b@).len());
        return false;
    }
    let mut i: usize = 0;
    while i < x.len()
        invariant
            x@ == a@,
            y@ == b@,
            x@.len() == y@.len(),
            0 <= i <= x@.len(),
            forall|k: int| 0 <= k < i ==> lower_ascii(#[trigger] x@[k]) == lower_ascii(y@[k]),
        decreases x@.len() - i,
    {
        if to_lower_ascii(x[i]) != to_lower_ascii(y[i]) {
            assert(ascii_lowered(a@)[i as int] != ascii_lowered(b@)[i as int]);
            return false;
        }
        i = i + 1;
    }
    assert(ascii_lowered(a@) =~= ascii_lowered(b@));
    true
}

/// What `str::to_lowercase` makes of a text.
pub uninterp spec fn lowercase(s: Seq<char>) -> Seq<char>;

/// Whether `c` is a capital letter of Latin-1 or a capital Y with a diaeresis.
pub open spec fn is_capital(c: char) -> bool {
    let n = c as u32;
    ||| 'A' as u32 <= n <= 'Z' as u32
    ||| 'À' as u32 <= n <= 'Þ' as u32 && c != '×'
    ||| c == 'Ÿ'
}

/// `s` in lower case.
///
/// Calls `str::to_lowercase`. Its result depends on the text alone and is in
/// lower case: no capital is left in it. On a text of ASCII characters it
/// changes `A` to `Z`, each to its small letter, and nothing else, so that a
/// second time changes nothing. Of other texts it is not said that a second
/// time changes nothing, nor that no white space comes up at their ends.
#[verifier::external_body]
pub(crate) fn to_lowercase(s: &str) -> (r: String)
    ensures
        r@ == lowercase(s@),
        forall|i: int| 0 <= i < r@.len() ==> !is_capital(#[trigger] r@[i]),
        vstd::utf8::is_ascii_chars(s@) ==> r@ == ascii_lowered(s@) && lowercase(r@) == r@,
{
    s.to_lowercase()
}

/// The digits that write a number stand for that number.
pub proof fn digits_write_the_number(n: nat)
    ensures
        all_digits(nat_text(n)),
        nat_text(n).len() >= 1,
        nat_text(n).len() >= 2 <==> n >= 10,
        digits_value(nat_text(n)) == n,
    decreases n,
{
    let d = digit_char(n % 10);
    if n < 10 {
        assert(nat_text(n).drop_last() =~= Seq::<char>::empty());
        assert(nat_text(n).last() == digit_char(n));
        assert(digits_value(Seq::<char>::empty()) == 0);
    } else {
        digits_write_the_number(n / 10);
        assert(nat_text(n).drop_last() =~= nat_text(n / 10));
        assert(nat_text(n).last() == d);
        assert(n == n / 10 * 10 + n % 10);
    }
}

proof fn lemma_two_digits(n: nat)
    requires
        n < 100,
    ensures
        all_digits(padded(n, 2)),
        padded(n, 2).len() == 2,
        digits_value(padded(n, 2)) == n,
{
    let none = Seq::<char>::empty();
    let tens = padded(n / 10, 1);
    assert(padded(n / 10 / 10, 0) =~= none);
    assert(tens =~= none.push(digit_char(n / 10 % 10)));
    assert(tens.drop_last() =~= none);
    assert(padded(n, 2) =~= tens.push(digit_char(n % 10)));
    assert(padded(n, 2).drop_last() =~= tens);
    assert(digits_value(none) == 0);
    assert(digits_value(tens) == n / 10);
}

/// A number with zeros in front, up to two digits, reads as that number.
pub proof fn two_digits_read_back(n: nat)
    requires
        n <= i64::MAX,
    ensures
        i64_of(decimal_padding(n, 2)) == Some(n as i64),
        n < 100 ==> i64_of(padded(n, 2)) == Some(n as i64),
        all_digits(decimal_padding(n, 2)),
        n < 100 ==> all_digits(padded(n, 2)),
        decimal_padding(n, 2).len() >= 2,
        padded(n, 2).len() == 2,
{
    digits_write_the_number(n);
    if n < 100 {
        lemma_two_digits(n);
    }
    assert(padded(n, 2).len() == 2) by {
        reveal_with_fuel(padded, 3);
    }
    lemma_digits_read(decimal_padding(n, 2), n);
    if n < 100 {
        lemma_digits_read(padded(n, 2), n);
    }
}

proof fn lemma_digits_read(s: Seq<char>, n: nat)
    requires
        all_digits(s),
        s.len() >= 1,
        digits_value(s) == n,
        n <= i64::MAX,
    ensures
        i64_of(s) == Some(n as i64),
{
    assert(is_digit(s[0]));
}

/// A text without the separator, behind another and a separator, is one more
/// piece; alone it is the only piece.
pub proof fn a_text_behind_a_separator_is_a_piece(x: Seq<char>, y: Seq<char>, sep: char)
    requires
        !y.contains(sep),
    ensures
        pieces(x.push(sep) + y, sep) == pieces(x, sep).push(y),
        pieces(y, sep) == seq![y],
    decreases y.len(),
{
    let s = x.push(sep) + y;
    if y.len() == 0 {
        assert(s =~= x.push(sep));
        assert(s.drop_last() =~= x);
        assert(y =~= Seq::<char>::empty());
        assert(pieces(y, sep) =~= seq![y]);
    } else {
        let z = y.drop_last();
        assert(y[y.len() - 1] == y.last());
        assert(y.contains(y.last()));
        assert forall|i: int| 0 <= i < z.len() implies #[trigger] z[i] != sep by {
            assert(y[i] == z[i]);
            assert(y.contains(y[i]));
        }
        a_text_behind_a_separator_is_a_piece(x, z, sep);
        assert(s.drop_last() =~= x.push(sep) + z);
        assert(s.last() == y.last());
        assert(z.push(y.last()) =~= y);
        let p = pieces(x, sep).push(z);
        assert(p.drop_last() =~= pieces(x, sep));
        assert(p.last() == z);
        assert(seq![z].drop_last() =~= Seq::<Seq<char>>::empty());
        assert(pieces(y, sep) =~= seq![y]);
    }
}

/// White space on either side of a text that neither begins nor ends with it
/// comes off.
pub proof fn blanks_come_off(before: Seq<char>, s: Seq<char>, after: Seq<char>)
    requires
        s.len() > 0,
        !is_space(s[0]),
        !is_space(s.last()),
        forall|i: int| 0 <= i < before.len() ==> is_space(#[trigger] before[i]),
        forall|i: int| 0 <= i < after.len() ==> is_space(#[trigger] after[i]),
    ensures
        trimmed(before + s + after) == s,
    decreases before.len() + after.len(),
{
    let t = before + s + after;
    if before.len() > 0 {
        let rest = before.drop_first();
        assert(is_space(before[0]));
        assert(t[0] == before[0]);
        assert(t.drop_first() =~= rest + s + after);
        assert forall|i: int| 0 <= i < rest.len() implies is_space(#[trigger] rest[i]) by {
            assert(rest[i] == before[i + 1]);
        }
        blanks_come_off(rest, s, after);
    } else {
        assert(t =~= s + after);
        assert(t[0] == s[0]);
        lemma_trim_end_of(s, after);
    }
}

proof fn lemma_trim_end_of(s: Seq<char>, after: Seq<char>)
    requires
        s.len() > 0,
        !is_space(s.last()),
        forall|i: int| 0 <= i < after.len() ==> is_space(#[trigger] after[i]),
    ensures
        trim_end(s + after) == s,
    decreases after.len(),
{
    if after.len() == 0 {
        assert(s + after =~= s);
    } else {
        let rest = after.drop_last();
        assert forall|i: int| 0 <= i < rest.len() implies is_space(#[trigger] rest[i]) by {
            assert(rest[i] == after[i]);
        }
        assert(is_space(after[after.len() - 1]));
        assert((s + after).last() == after[after.len() - 1]);
        assert((s + after).drop_last() =~= s + rest);
        lemma_trim_end_of(s, rest);
    }
}

/// A trimmed text neither begins nor ends with white space, and holds characters
/// of the text; trimming it again changes nothing.
pub proof fn a_trimmed_text_has_no_outer_blanks(s: Seq<char>)
    ensures
        trimmed(s).len() > 0 ==> !is_space(trimmed(s)[0]) && !is_space(trimmed(s).last()),
        trimmed(trimmed(s)) == trimmed(s),
{
    lemma_trim_start_ends(s);
    lemma_trim_end_ends(trim_start(s));
}

proof fn lemma_trim_start_ends(s: Seq<char>)
    ensures
        trim_start(s).len() > 0 ==> !is_space(trim_start(s)[0]),
    decreases s.len(),
{
    if s.len() > 0 && is_space(s[0]) {
        lemma_trim_start_ends(s.drop_first());
    }
}

proof fn lemma_trim_end_ends(s: Seq<char>)
    ensures
        trim_end(s).len() > 0 ==> !is_space(trim_end(s).last()) && trim_end(s)[0] == s[0]
            && s.len() > 0,
    decreases s.len(),
{
    if s.len() > 0 && is_space(s.last()) {
        lemma_trim_end_ends(s.drop_last());
    }
}

} // verus!
