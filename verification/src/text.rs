//! Character-level text handling: the whitespace classes, word splitting,
//! trimming, searching and integer parsing that the log formats rely on.

use vstd::prelude::*;

verus! {

/// The Unicode `White_Space` property, which is what `char::is_whitespace` reports.
pub open spec fn is_white_space(c: char) -> bool {
    let u = c as u32;
    ||| 0x09 <= u <= 0x0D
    ||| u == 0x20
    ||| u == 0x85
    ||| u == 0xA0
    ||| u == 0x1680
    ||| 0x2000 <= u <= 0x200A
    ||| u == 0x2028
    ||| u == 0x2029
    ||| u == 0x202F
    ||| u == 0x205F
    ||| u == 0x3000
}

/// Whether `c` is a whitespace character.
pub fn is_whitespace_char(c: char) -> (r: bool)
    ensures
        r == is_white_space(c),
{
    let u = c as u32;
    (0x09 <= u && u <= 0x0D) || u == 0x20 || u == 0x85 || u == 0xA0 || u == 0x1680 || (0x2000
        <= u && u <= 0x200A) || u == 0x2028 || u == 0x2029 || u == 0x202F || u == 0x205F || u
        == 0x3000
}

/// The characters of a string, in order.
pub fn chars_of(s: &str) -> (v: Vec<char>)
    ensures
        v@ == s@,
{
    let mut v: Vec<char> = Vec::new();
    for c in it: s.chars()
        invariant
            v@ == it.seq().take(it.index() as int),
    {
        v.push(c);
    }
    v
}

/// The views of a sequence of character vectors.
pub open spec fn views(v: Seq<Vec<char>>) -> Seq<Seq<char>> {
    v.map_values(|w: Vec<char>| w@)
}

/// The maximal runs of non-whitespace characters of `s`, in order: what
/// `str::split_whitespace` yields.
pub open spec fn words(s: Seq<char>) -> Seq<Seq<char>>
    decreases s.len(),
{
    if s.len() == 0 {
        seq![]
    } else {
        let w = words(s.drop_last());
        let c = s.last();
        if is_white_space(c) {
            w
        } else if s.len() >= 2 && !is_white_space(s[s.len() - 2]) {
            w.update(w.len() - 1, w.last().push(c))
        } else {
            w.push(seq![c])
        }
    }
}

proof fn lemma_words_nonempty(s: Seq<char>)
    requires
        s.len() > 0,
        !is_white_space(s.last()),
    ensures
        words(s).len() > 0,
    decreases s.len(),
{
    if s.len() >= 2 && !is_white_space(s[s.len() - 2]) {
        let t = s.drop_last();
        assert(t.last() == s[s.len() - 2]);
        lemma_words_nonempty(t);
    }
}

/// Splits `s` into its whitespace-separated words.
pub fn split_whitespace(s: &Vec<char>) -> (r: Vec<Vec<char>>)
    ensures
        views(r@) == words(s@),
{
    let mut out: Vec<Vec<char>> = Vec::new();
    let mut cur: Vec<char> = Vec::new();
    let mut i: usize = 0;
    assert(s@.take(0) =~= seq![]);
    while i < s.len()
        invariant
            i <= s.len(),
            cur@.len() > 0 <==> (i > 0 && !is_white_space(s@[i - 1])),
            words(s@.take(i as int)) == if cur@.len() > 0 {
                views(out@).push(cur@)
            } else {
                views(out@)
            },
        decreases s.len() - i,
    {
        let c = s[i];
        let ghost t = s@.take(i as int + 1);
        assert(t.drop_last() =~= s@.take(i as int));
        assert(t.last() == c);
        if is_whitespace_char(c) {
            if cur.len() > 0 {
                let ghost old_out = out@;
                out.push(cur);
                assert(views(out@) =~= views(old_out).push(cur@));
                cur = Vec::new();
            }
        } else {
            if cur.len() > 0 {
                assert(t[t.len() - 2] == s@[i - 1]);
                cur.push(c);
                assert(words(t) =~= views(out@).push(cur@));
            } else {
                cur.push(c);
                assert(cur@ =~= seq![c]);
            }
        }
        i = i + 1;
    }
    assert(s@.take(s.len() as int) =~= s@);
    if cur.len() > 0 {
        let ghost old_out = out@;
        out.push(cur);
        assert(views(out@) =~= views(old_out).push(cur@));
    }
    out
}

/// `s` without the copies of `c` that end it: what `str::trim_end_matches(c)` gives.
pub open spec fn trim_end_char(s: Seq<char>, c: char) -> Seq<char>
    decreases s.len(),
{
    if s.len() > 0 && s.last() == c {
        trim_end_char(s.drop_last(), c)
    } else {
        s
    }
}

/// `s` without the copies of `c` that begin it: what `str::trim_start_matches(c)` gives.
pub open spec fn trim_start_char(s: Seq<char>, c: char) -> Seq<char>
    decreases s.len(),
{
    if s.len() > 0 && s[0] == c {
        trim_start_char(s.drop_first(), c)
    } else {
        s
    }
}

/// `s` without the whitespace that ends it.
pub open spec fn trim_end_ws(s: Seq<char>) -> Seq<char>
    decreases s.len(),
{
    if s.len() > 0 && is_white_space(s.last()) {
        trim_end_ws(s.drop_last())
    } else {
        s
    }
}

/// `s` without the whitespace that begins it.
pub open spec fn trim_start_ws(s: Seq<char>) -> Seq<char>
    decreases s.len(),
{
    if s.len() > 0 && is_white_space(s[0]) {
        trim_start_ws(s.drop_first())
    } else {
        s
    }
}

/// `s` without leading and trailing whitespace: what `str::trim` gives.
pub open spec fn trim_ws(s: Seq<char>) -> Seq<char> {
    trim_end_ws(trim_start_ws(s))
}

/// Removes every copy of `c` at the end of `s`.
pub fn trim_end_matches_char(s: &Vec<char>, c: char) -> (r: Vec<char>)
    ensures
        r@ == trim_end_char(s@, c),
{
    let mut j: usize = s.len();
    assert(s@.take(j as int) =~= s@);
    while j > 0 && s[j - 1] == c
        invariant
            j <= s.len(),
            trim_end_char(s@, c) == trim_end_char(s@.take(j as int), c),
        decreases j,
    {
        let ghost t = s@.take(j as int);
        assert(t.drop_last() =~= s@.take(j - 1));
        j = j - 1;
    }
    let r = take_chars(s, j);
    r
}

/// Removes every copy of `c` at the start of `s`.
pub fn trim_start_matches_char(s: &Vec<char>, c: char) -> (r: Vec<char>)
    ensures
        r@ == trim_start_char(s@, c),
{
    let mut i: usize = 0;
    assert(s@.skip(0) =~= s@);
    while i < s.len() && s[i] == c
        invariant
            i <= s.len(),
            trim_start_char(s@, c) == trim_start_char(s@.skip(i as int), c),
        decreases s.len() - i,
    {
        let ghost t = s@.skip(i as int);
        assert(t.drop_first() =~= s@.skip(i + 1));
        i = i + 1;
    }
    skip_chars(s, i)
}

/// Removes the whitespace at both ends of `s`.
pub fn trim_whitespace(s: &Vec<char>) -> (r: Vec<char>)
    ensures
        r@ == trim_ws(s@),
{
    let mut i: usize = 0;
    assert(s@.skip(0) =~= s@);
    while i < s.len() && is_whitespace_char(s[i])
        invariant
            i <= s.len(),
            trim_start_ws(s@) == trim_start_ws(s@.skip(i as int)),
        decreases s.len() - i,
    {
        let ghost t = s@.skip(i as int);
        assert(t.drop_first() =~= s@.skip(i + 1));
        i = i + 1;
    }
    let front = skip_chars(s, i);
    let mut j: usize = front.len();
    assert(front@.take(j as int) =~= front@);
    while j > 0 && is_whitespace_char(front[j - 1])
        invariant
            j <= front.len(),
            trim_end_ws(front@) == trim_end_ws(front@.take(j as int)),
        decreases j,
    {
        let ghost t = front@.take(j as int);
        assert(t.drop_last() =~= front@.take(j - 1));
        j = j - 1;
    }
    take_chars(&front, j)
}

/// The first `n` characters of `s`, or all of them when there are fewer.
pub fn take_chars(s: &Vec<char>, n: usize) -> (r: Vec<char>)
    ensures
        n <= s.len() ==> r@ == s@.take(n as int),
        n > s.len() ==> r@ == s@,
{
    let mut r: Vec<char> = Vec::new();
    let mut i: usize = 0;
    assert(s@.take(0) =~= Seq::<char>::empty());
    while i < n && i < s.len()
        invariant
            i <= s.len(),
            i <= n,
            r@ == s@.take(i as int),
        decreases s.len() - i,
    {
        r.push(s[i]);
        i = i + 1;
        assert(r@ =~= s@.take(i as int));
    }
    assert(n > s.len() ==> s@.take(s.len() as int) =~= s@);
    r
}

/// The characters of `s` after the first `n`, or none when there are fewer.
pub fn skip_chars(s: &Vec<char>, n: usize) -> (r: Vec<char>)
    ensures
        n <= s.len() ==> r@ == s@.skip(n as int),
        n > s.len() ==> r@ == Seq::<char>::empty(),
{
    let mut r: Vec<char> = Vec::new();
    let mut i: usize = n;
    assert(n <= s.len() ==> s@.subrange(n as int, n as int) =~= Seq::<char>::empty());
    while i < s.len()
        invariant
            n <= i,
            n <= s.len() ==> i <= s.len(),
            i <= s.len() ==> r@ == s@.subrange(n as int, i as int),
            i > s.len() ==> r@ == Seq::<char>::empty(),
        decreases s.len() - i,
    {
        r.push(s[i]);
        i = i + 1;
        assert(r@ =~= s@.subrange(n as int, i as int));
    }
    assert(n <= s.len() ==> s@.subrange(n as int, s.len() as int) =~= s@.skip(n as int));
    r
}

/// Whether `a` and `b` hold the same characters.
pub fn chars_eq(a: &Vec<char>, b: &Vec<char>) -> (r: bool)
    ensures
        r == (a@ == b@),
{
    if a.len() != b.len() {
        return false;
    }
    let mut i: usize = 0;
    while i < a.len()
        invariant
            a.len() == b.len(),
            i <= a.len(),
            forall|j: int| 0 <= j < i ==> a@[j] == b@[j],
        decreases a.len() - i,
    {
        if a[i] != b[i] {
            return false;
        }
        i = i + 1;
    }
    assert(a@ =~= b@);
    true
}

/// Whether the string `a` holds the characters of `b`.
pub fn str_eq_chars(a: &str, b: &Vec<char>) -> (r: bool)
    ensures
        r == (a@ == b@),
{
    let av = chars_of(a);
    chars_eq(&av, b)
}

/// Whether the strings `a` and `b` hold the same characters.
pub fn str_eq(a: &str, b: &str) -> (r: bool)
    ensures
        r == (a@ == b@),
{
    let av = chars_of(a);
    let bv = chars_of(b);
    chars_eq(&av, &bv)
}

/// The number of bytes that `c` takes in UTF-8.
pub open spec fn utf8_char_len(c: char) -> nat {
    let u = c as u32;
    if u < 0x80 {
        1
    } else if u < 0x800 {
        2
    } else if u < 0x10000 {
        3
    } else {
        4
    }
}

/// The number of bytes that `s` takes in UTF-8: what `str::len` reports.
pub open spec fn utf8_len(s: Seq<char>) -> nat
    decreases s.len(),
{
    if s.len() == 0 {
        0
    } else {
        utf8_len(s.drop_last()) + utf8_char_len(s.last())
    }
}

/// The number of UTF-16 code units that `c` takes.
pub open spec fn utf16_char_len(c: char) -> nat {
    if (c as u32) < 0x10000 {
        1
    } else {
        2
    }
}

/// The number of UTF-16 code units of `s`: what `str::encode_utf16().count()` reports.
pub open spec fn utf16_len(s: Seq<char>) -> nat
    decreases s.len(),
{
    if s.len() == 0 {
        0
    } else {
        utf16_len(s.drop_last()) + utf16_char_len(s.last())
    }
}

proof fn lemma_utf8_len_bound(s: Seq<char>)
    ensures
        utf8_len(s) <= 4 * s.len(),
    decreases s.len(),
{
    if s.len() > 0 {
        lemma_utf8_len_bound(s.drop_last());
    }
}

proof fn lemma_utf16_len_bound(s: Seq<char>)
    ensures
        utf16_len(s) <= 2 * s.len(),
    decreases s.len(),
{
    if s.len() > 0 {
        lemma_utf16_len_bound(s.drop_last());
    }
}

/// The UTF-8 length of `s`, in bytes.
pub fn utf8_length(s: &Vec<char>) -> (r: u128)
    ensures
        r == utf8_len(s@),
        r <= 4 * s@.len(),
{
    let mut n: u128 = 0;
    let mut i: usize = 0;
    while i < s.len()
        invariant
            i <= s.len(),
            n == utf8_len(s@.take(i as int)),
        decreases s.len() - i,
    {
        proof {
            lemma_utf8_len_bound(s@.take(i as int));
        }
        let u = s[i] as u32;
        let k: u128 = if u < 0x80 {
            1
        } else if u < 0x800 {
            2
        } else if u < 0x10000 {
            3
        } else {
            4
        };
        assert(s@.take(i + 1).drop_last() =~= s@.take(i as int));
        n = n + k;
        i = i + 1;
    }
    assert(s@.take(s.len() as int) =~= s@);
    proof {
        lemma_utf8_len_bound(s@);
        lemma_utf16_len_bound(s@);
    }
    n
}

/// The UTF-16 length of `s`, in code units.
pub fn utf16_length(s: &Vec<char>) -> (r: u128)
    ensures
        r == utf16_len(s@),
        r <= 2 * s@.len(),
{
    let mut n: u128 = 0;
    let mut i: usize = 0;
    while i < s.len()
        invariant
            i <= s.len(),
            n == utf16_len(s@.take(i as int)),
        decreases s.len() - i,
    {
        proof {
            lemma_utf16_len_bound(s@.take(i as int));
        }
        let u = s[i] as u32;
        let k: u128 = if u < 0x10000 {
            1
        } else {
            2
        };
        assert(s@.take(i + 1).drop_last() =~= s@.take(i as int));
        n = n + k;
        i = i + 1;
    }
    assert(s@.take(s.len() as int) =~= s@);
    proof {
        lemma_utf8_len_bound(s@);
        lemma_utf16_len_bound(s@);
    }
    n
}

/// Whether `c` is an ASCII decimal digit.
pub open spec fn is_digit(c: char) -> bool {
    '0' <= c <= '9'
}

/// Whether every character of `s` is an ASCII decimal digit.
pub open spec fn all_digits(s: Seq<char>) -> bool {
    forall|i: int| 0 <= i < s.len() ==> is_digit(#[trigger] s[i])
}

/// The number that the decimal digits `s` spell.
pub open spec fn digits_value(s: Seq<char>) -> nat
    decreases s.len(),
{
    if s.len() == 0 {
        0
    } else {
        digits_value(s.drop_last()) * 10 + ((s.last() as u32) - ('0' as u32)) as nat
    }
}

/// What `u32::from_str` gives: an optional `+`, then at least one digit, and a
/// value that fits.
pub open spec fn parse_u32_spec(s: Seq<char>) -> Option<u32> {
    let ds = if s.len() > 0 && s[0] == '+' {
        s.drop_first()
    } else {
        s
    };
    if ds.len() > 0 && all_digits(ds) && digits_value(ds) <= u32::MAX {
        Some(digits_value(ds) as u32)
    } else {
        None
    }
}

/// What `i32::from_str` gives: an optional `+` or `-`, then at least one digit,
/// and a value that fits.
pub open spec fn parse_i32_spec(s: Seq<char>) -> Option<i32> {
    if s.len() > 0 && s[0] == '-' {
        let ds = s.drop_first();
        if ds.len() > 0 && all_digits(ds) && digits_value(ds) <= 0x8000_0000 {
            Some((-(digits_value(ds) as int)) as i32)
        } else {
            None
        }
    } else {
        let ds = if s.len() > 0 && s[0] == '+' {
            s.drop_first()
        } else {
            s
        };
        if ds.len() > 0 && all_digits(ds) && digits_value(ds) <= i32::MAX {
            Some(digits_value(ds) as i32)
        } else {
            None
        }
    }
}

proof fn lemma_digits_value_prefix(s: Seq<char>, i: int)
    requires
        0 <= i <= s.len(),
        all_digits(s),
    ensures
        digits_value(s.take(i)) <= digits_value(s),
    decreases s.len() - i,
{
    if i < s.len() {
        lemma_digits_value_prefix(s, i + 1);
        let t = s.take(i + 1);
        assert(t.drop_last() =~= s.take(i));
        assert(is_digit(s[i]));
    } else {
        assert(s.take(i) =~= s);
    }
}

/// The value of the decimal digits `s[start..]`, when they are all digits, there is
/// at least one, and the value is at most `max`.
fn parse_digits_from(s: &Vec<char>, start: usize, max: u64) -> (r: Option<u64>)
    requires
        start <= s.len(),
        max <= u32::MAX,
    ensures
        ({
            let ds = s@.skip(start as int);
            match r {
                Some(v) => ds.len() > 0 && all_digits(ds) && digits_value(ds) <= max && v
                    == digits_value(ds),
                None => !(ds.len() > 0 && all_digits(ds) && digits_value(ds) <= max),
            }
        }),
{
    let ghost ds = s@.skip(start as int);
    if start == s.len() {
        return None;
    }
    let mut i: usize = start;
    while i < s.len()
        invariant
            start <= i <= s.len(),
            ds == s@.skip(start as int),
            forall|j: int| 0 <= j < i - start ==> is_digit(#[trigger] ds[j]),
        decreases s.len() - i,
    {
        if !('0' <= s[i] && s[i] <= '9') {
            assert(!is_digit(ds[i - start]));
            return None;
        }
        i = i + 1;
    }
    assert(all_digits(ds));
    let mut v: u64 = 0;
    let mut k: usize = start;
    assert(ds.take(0) =~= seq![]);
    while k < s.len()
        invariant
            start <= k <= s.len(),
            ds == s@.skip(start as int),
            all_digits(ds),
            max <= u32::MAX,
            v <= max,
            v == digits_value(ds.take(k - start)),
        decreases s.len() - k,
    {
        let ghost t = ds.take(k - start + 1);
        assert(t.drop_last() =~= ds.take(k - start));
        assert(t.last() == s@[k as int]);
        assert(is_digit(ds[k - start]));
        let d = (s[k] as u32 - '0' as u32) as u64;
        let nv = v * 10 + d;
        if nv > max {
            proof {
                lemma_digits_value_prefix(ds, k - start + 1);
            }
            return None;
        }
        v = nv;
        k = k + 1;
    }
    assert(ds.take(s.len() - start) =~= ds);
    Some(v)
}

/// Parses an unsigned 32-bit decimal number as `u32::from_str` does.
pub fn parse_u32(s: &Vec<char>) -> (r: Option<u32>)
    ensures
        r == parse_u32_spec(s@),
{
    let start: usize = if s.len() > 0 && s[0] == '+' {
        1
    } else {
        0
    };
    assert(start == 1 ==> s@.skip(1) =~= s@.drop_first());
    assert(s@.skip(0) =~= s@);
    match parse_digits_from(s, start, 0xFFFF_FFFF) {
        Some(v) => Some(v as u32),
        None => None,
    }
}

/// Parses a signed 32-bit decimal number as `i32::from_str` does.
pub fn parse_i32(s: &Vec<char>) -> (r: Option<i32>)
    ensures
        r == parse_i32_spec(s@),
{
    assert(s@.skip(1) =~= s@.drop_first());
    assert(s@.skip(0) =~= s@);
    if s.len() > 0 && s[0] == '-' {
        match parse_digits_from(s, 1, 0x8000_0000) {
            Some(v) => {
                let n: i64 = -(v as i64);
                Some(n as i32)
            },
            None => None,
        }
    } else {
        let start: usize = if s.len() > 0 && s[0] == '+' {
            1
        } else {
            0
        };
        match parse_digits_from(s, start, 0x7FFF_FFFF) {
            Some(v) => Some(v as i32),
            None => None,
        }
    }
}

/// Whether `pat` occurs in `s` at position `i`.
pub open spec fn occurs_at(s: Seq<char>, pat: Seq<char>, i: int) -> bool {
    0 <= i && i + pat.len() <= s.len() && s.subrange(i, i + pat.len()) == pat
}

/// The first position below `n` at which `pat` occurs in `s`.
pub open spec fn find_below(s: Seq<char>, pat: Seq<char>, n: int) -> Option<int>
    decreases n,
{
    if n <= 0 {
        None
    } else {
        match find_below(s, pat, n - 1) {
            Some(i) => Some(i),
            None => if occurs_at(s, pat, n - 1) {
                Some(n - 1)
            } else {
                None
            },
        }
    }
}

/// The first position at which `pat` occurs in `s`, counted in characters.
pub open spec fn find_sub(s: Seq<char>, pat: Seq<char>) -> Option<int> {
    find_below(s, pat, s.len() as int + 1)
}

/// The first position at which `pat` occurs in `s`.
pub fn find_chars(s: &Vec<char>, pat: &Vec<char>) -> (r: Option<usize>)
    ensures
        match r {
            Some(i) => find_sub(s@, pat@) == Some(i as int) && i + pat@.len() <= s@.len(),
            None => find_sub(s@, pat@) is None,
        },
{
    if pat.len() > s.len() {
        let ghost n = s.len() + 1;
        assert forall|k: int| 0 <= k <= n implies find_below(s@, pat@, k) is None by {
            lemma_find_below_none(s@, pat@, k);
        }
        return None;
    }
    let mut i: usize = 0;
    while i <= s.len() - pat.len()
        invariant
            pat.len() <= s.len(),
            i <= s.len() - pat.len() + 1,
            find_below(s@, pat@, i as int) is None,
        decreases s.len() - pat.len() + 1 - i,
    {
        let mut j: usize = 0;
        let mut same = true;
        while j < pat.len()
            invariant
                i + pat.len() <= s.len(),
                j <= pat.len(),
                same <==> forall|k: int| 0 <= k < j ==> s@[i + k] == pat@[k],
            decreases pat.len() - j,
        {
            if s[i + j] != pat[j] {
                same = false;
            }
            j = j + 1;
        }
        if same {
            assert(s@.subrange(i as int, i + pat.len()) =~= pat@);
            proof {
                lemma_find_below_stable(s@, pat@, i as int + 1, s.len() as int + 1, i as int);
            }
            return Some(i);
        }
        assert(!occurs_at(s@, pat@, i as int)) by {
            if occurs_at(s@, pat@, i as int) {
                assert forall|k: int| 0 <= k < pat.len() implies s@[i + k] == pat@[k] by {
                    assert(s@.subrange(i as int, i + pat.len())[k] == s@[i + k]);
                }
            }
        }
        i = i + 1;
    }
    proof {
        let n = s.len() + 1;
        let lo = (s.len() - pat.len() + 1) as int;
        lemma_find_below_tail(s@, pat@, lo, n);
    }
    None
}

proof fn lemma_find_below_stable(s: Seq<char>, pat: Seq<char>, m: int, n: int, i: int)
    requires
        find_below(s, pat, m) == Some(i),
        m <= n,
    ensures
        find_below(s, pat, n) == Some(i),
    decreases n - m,
{
    if n > m {
        lemma_find_below_stable(s, pat, m, n - 1, i);
    }
}

proof fn lemma_find_below_none(s: Seq<char>, pat: Seq<char>, n: int)
    requires
        pat.len() > s.len(),
    ensures
        find_below(s, pat, n) is None,
    decreases n,
{
    if n > 0 {
        lemma_find_below_none(s, pat, n - 1);
    }
}

proof fn lemma_find_below_tail(s: Seq<char>, pat: Seq<char>, lo: int, n: int)
    requires
        find_below(s, pat, lo) is None,
        0 <= lo <= n,
        lo == s.len() - pat.len() + 1,
    ensures
        find_below(s, pat, n) is None,
    decreases n - lo,
{
    if n > lo {
        lemma_find_below_tail(s, pat, lo, n - 1);
    }
}

/// The upper-case form of `s` under Unicode case mapping, as `str::to_uppercase` gives it.
pub uninterp spec fn str_upper(s: Seq<char>) -> Seq<char>;

/// The lower-case form of `s` under Unicode case mapping, as `str::to_lowercase` gives it.
pub uninterp spec fn str_lower(s: Seq<char>) -> Seq<char>;

/// The upper-case form of `c` under Unicode case mapping, as `char::to_uppercase` gives it.
pub uninterp spec fn char_upper(c: char) -> Seq<char>;

/// Calls `str::to_uppercase`. Trusted: its result is taken to be `str_upper` of the
/// characters of `s`, a function of those characters alone.
#[verifier::external_body]
pub(crate) fn to_uppercase(s: &str) -> (r: String)
    ensures
        r@ == str_upper(s@),
{
    s.to_uppercase()
}

/// Calls `str::to_lowercase`. Trusted: its result is taken to be `str_lower` of the
/// characters of `s`, a function of those characters alone.
#[verifier::external_body]
pub(crate) fn to_lowercase(s: &str) -> (r: String)
    ensures
        r@ == str_lower(s@),
{
    s.to_lowercase()
}

/// Calls `char::to_uppercase` and collects the characters it yields. Trusted: the
/// result is taken to be `char_upper(c)`.
#[verifier::external_body]
pub(crate) fn char_to_uppercase(c: char) -> (r: String)
    ensures
        r@ == char_upper(c),
{
    c.to_uppercase().collect()
}

/// Collects characters into a `String` (`FromIterator<char>`). Trusted: the string
/// holds exactly the characters of `v`, in order, as std documents.
#[verifier::external_body]
pub(crate) fn string_from_chars(v: &Vec<char>) -> (r: String)
    ensures
        r@ == v@,
{
    v.iter().collect()
}


/// The pieces of `s` between the occurrences of `c`, empty ones included: what
/// `str::split` with a character yields.
pub open spec fn split_on(s: Seq<char>, c: char) -> Seq<Seq<char>>
    decreases s.len(),
{
    if s.len() == 0 {
        seq![seq![]]
    } else {
        let rest = split_on(s.drop_last(), c);
        if s.last() == c {
            rest.push(seq![])
        } else {
            rest.update(rest.len() - 1, rest.last().push(s.last()))
        }
    }
}

proof fn lemma_split_on_nonempty(s: Seq<char>, c: char)
    ensures
        split_on(s, c).len() >= 1,
    decreases s.len(),
{
    if s.len() > 0 {
        lemma_split_on_nonempty(s.drop_last(), c);
    }
}

/// The pieces of `s` between the occurrences of `c`.
pub fn split_on_char(s: &str, c: char) -> (r: Vec<String>)
    ensures
        r@.map_values(|x: String| x@) == split_on(s@, c),
{
    let cs = chars_of(s);
    let mut out: Vec<String> = Vec::new();
    let mut cur: Vec<char> = Vec::new();
    let mut i: usize = 0;
    assert(cs@.take(0) =~= Seq::<char>::empty());
    while i < cs.len()
        invariant
            i <= cs.len(),
            cs@ == s@,
            out@.map_values(|x: String| x@).push(cur@) == split_on(cs@.take(i as int), c),
        decreases cs.len() - i,
    {
        let ghost t = cs@.take(i as int + 1);
        assert(t.drop_last() =~= cs@.take(i as int));
        assert(t.last() == cs@[i as int]);
        let ghost before = out@.map_values(|x: String| x@);
        proof {
            lemma_split_on_nonempty(cs@.take(i as int), c);
        }
        if cs[i] == c {
            let piece = string_from_chars(&cur);
            out.push(piece);
            cur = Vec::new();
            assert(out@.map_values(|x: String| x@) =~= before.push(piece@));
            assert(out@.map_values(|x: String| x@).push(cur@) =~= before.push(piece@).push(seq![]));
        } else {
            let ghost old_cur = cur@;
            cur.push(cs[i]);
            assert(out@.map_values(|x: String| x@) =~= before);
            assert(before.push(cur@) =~= before.push(old_cur).update(
                before.len() as int,
                old_cur.push(cs@[i as int]),
            ));
        }
        i = i + 1;
    }
    assert(cs@.take(cs.len() as int) =~= cs@);
    let last = string_from_chars(&cur);
    let ghost before = out@.map_values(|x: String| x@);
    out.push(last);
    assert(out@.map_values(|x: String| x@) =~= before.push(last@));
    out
}

/// What `heck::ToSnakeCase::to_snake_case` gives for `s`.
pub uninterp spec fn heck_snake_case(s: Seq<char>) -> Seq<char>;

/// Calls `heck::ToSnakeCase::to_snake_case`, which splits `s` into words at case
/// changes and separators and joins them lower-cased with `_`. Trusted: its result
/// is taken to be `heck_snake_case` of the characters of `s`, a function of them
/// alone.
#[verifier::external_body]
pub(crate) fn to_snake_case(s: &str) -> (r: String)
    ensures
        r@ == heck_snake_case(s@),
{
    heck::ToSnakeCase::to_snake_case(s)
}


/// The pieces `ss` joined with `sep`.
pub open spec fn join_with(ss: Seq<Seq<char>>, sep: Seq<char>) -> Seq<char>
    decreases ss.len(),
{
    if ss.len() == 0 {
        seq![]
    } else if ss.len() == 1 {
        ss[0]
    } else {
        join_with(ss.drop_last(), sep) + sep + ss.last()
    }
}

proof fn lemma_join_extend_last(ps: Seq<Seq<char>>, sep: Seq<char>, x: char)
    requires
        ps.len() >= 1,
    ensures
        join_with(ps.update(ps.len() - 1, ps.last().push(x)), sep) == join_with(ps, sep).push(x),
{
    let q = ps.update(ps.len() - 1, ps.last().push(x));
    if ps.len() == 1 {
        assert(q[0] == ps[0].push(x));
    } else {
        assert(q.drop_last() =~= ps.drop_last());
        assert(q.last() == ps.last().push(x));
        assert(join_with(q, sep) =~= join_with(ps, sep).push(x));
    }
}

/// Splitting a text at a character and joining the pieces with that character
/// gives back the text.
pub proof fn lemma_split_join(s: Seq<char>, c: char)
    ensures
        join_with(split_on(s, c), seq![c]) == s,
    decreases s.len(),
{
    if s.len() == 0 {
        assert(split_on(s, c) =~= seq![seq![]]);
        assert(s =~= Seq::<char>::empty());
    } else {
        let t = s.drop_last();
        lemma_split_join(t, c);
        lemma_split_on_nonempty(t, c);
        let rest = split_on(t, c);
        if s.last() == c {
            let q = rest.push(seq![]);
            assert(q.drop_last() =~= rest);
            assert(join_with(q, seq![c]) =~= t + seq![c] + Seq::<char>::empty());
            assert(s =~= t + seq![c]);
        } else {
            lemma_join_extend_last(rest, seq![c], s.last());
            assert(s =~= t.push(s.last()));
        }
    }
}

} // verus!
