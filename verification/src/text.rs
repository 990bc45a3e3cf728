use vstd::prelude::*;

verus! {

/// Appends one character to a `String` (std `String::push`).
#[verifier::external_body]
pub(crate) fn push_char(s: &mut String, c: char)
    ensures
        final(s)@ == old(s)@.push(c),
{
    s.push(c);
}

/// Collects the characters of a string slice into a vector.
pub fn chars_of(s: &str) -> (v: Vec<char>)
    ensures
        v@ == s@,
{
    let mut v: Vec<char> = Vec::new();
    for c in it: s.chars()
        invariant
            v@ == it.seq().take(it.index() as int),
            it.seq() == s@,
    {
        v.push(c);
    }
    v
}

/// Builds a `String` holding exactly the given characters.
pub fn string_of(v: &Vec<char>) -> (s: String)
    ensures
        s@ == v@,
{
    let mut s = String::new();
    let mut i: usize = 0;
    while i < v.len()
        invariant
            i <= v.len(),
            s@ == v@.take(i as int),
        decreases v.len() - i,
    {
        push_char(&mut s, v[i]);
        assert(v@.take(i as int).push(v@[i as int]) =~= v@.take(i as int + 1));
        i = i + 1;
    }
    assert(v@.take(v.len() as int) =~= v@);
    s
}


/// Unicode `White_Space`, the set that `char::is_whitespace` tests.
pub open spec fn is_ws(c: char) -> bool {
    ||| ('\t' <= c && c <= '\r')
    ||| c == ' '
    ||| c == '\u{85}'
    ||| c == '\u{a0}'
    ||| c == '\u{1680}'
    ||| ('\u{2000}' <= c && c <= '\u{200a}')
    ||| c == '\u{2028}'
    ||| c == '\u{2029}'
    ||| c == '\u{202f}'
    ||| c == '\u{205f}'
    ||| c == '\u{3000}'
}

/// `s` without its leading whitespace.
pub open spec fn trim_start(s: Seq<char>) -> Seq<char>
    decreases s.len(),
{
    if s.len() > 0 && is_ws(s[0]) {
        trim_start(s.drop_first())
    } else {
        s
    }
}

/// `s` without its trailing whitespace.
pub open spec fn trim_end(s: Seq<char>) -> Seq<char>
    decreases s.len(),
{
    if s.len() > 0 && is_ws(s.last()) {
        trim_end(s.drop_last())
    } else {
        s
    }
}

/// `s` without leading and trailing whitespace (`str::trim`).
pub open spec fn trim(s: Seq<char>) -> Seq<char> {
    trim_end(trim_start(s))
}

/// Whether every character of `s` is whitespace.
pub open spec fn all_ws(s: Seq<char>) -> bool {
    forall|i: int| 0 <= i < s.len() ==> is_ws(#[trigger] s[i])
}

pub fn is_whitespace(c: char) -> (b: bool)
    ensures
        b == is_ws(c),
{
    ('\t' <= c && c <= '\r') || c == ' ' || c == '\u{85}' || c == '\u{a0}' || c == '\u{1680}'
        || ('\u{2000}' <= c && c <= '\u{200a}') || c == '\u{2028}' || c == '\u{2029}'
        || c == '\u{202f}' || c == '\u{205f}' || c == '\u{3000}'
}

proof fn lemma_trim_start_skip(s: Seq<char>, i: int)
    requires
        0 <= i <= s.len(),
        forall|k: int| 0 <= k < i ==> is_ws(#[trigger] s[k]),
    ensures
        trim_start(s) == trim_start(s.subrange(i, s.len() as int)),
    decreases i,
{
    if i > 0 {
        assert(s.drop_first().subrange(i - 1, s.drop_first().len() as int) =~= s.subrange(
            i,
            s.len() as int,
        ));
        lemma_trim_start_skip(s.drop_first(), i - 1);
    } else {
        assert(s.subrange(0, s.len() as int) =~= s);
    }
}

proof fn lemma_trim_end_take(s: Seq<char>, j: int)
    requires
        0 <= j <= s.len(),
        forall|k: int| j <= k < s.len() ==> is_ws(#[trigger] s[k]),
    ensures
        trim_end(s) == trim_end(s.subrange(0, j)),
    decreases s.len() - j,
{
    if j < s.len() {
        assert(s.drop_last().subrange(0, j) =~= s.subrange(0, j));
        lemma_trim_end_take(s.drop_last(), j);
    } else {
        assert(s.subrange(0, j) =~= s);
    }
}

/// Whitespace-trimmed copy of `s` (`str::trim`).
pub fn trim_chars(s: &Vec<char>) -> (r: Vec<char>)
    ensures
        r@ == trim(s@),
{
    let n = s.len();
    let mut i: usize = 0;
    while i < n && is_whitespace(s[i])
        invariant
            i <= n,
            n == s.len(),
            forall|k: int| 0 <= k < i ==> is_ws(#[trigger] s@[k]),
        decreases n - i,
    {
        i = i + 1;
    }
    proof {
        lemma_trim_start_skip(s@, i as int);
    }
    let ghost t = s@.subrange(i as int, n as int);
    assert(trim_start(t) == t);
    let mut j: usize = n;
    while j > i && is_whitespace(s[j - 1])
        invariant
            i <= j <= n,
            n == s.len(),
            forall|k: int| j <= k < n ==> is_ws(#[trigger] s@[k]),
        decreases j,
    {
        j = j - 1;
    }
    proof {
        lemma_trim_end_take(t, (j - i) as int);
        assert(t.subrange(0, (j - i) as int) =~= s@.subrange(i as int, j as int));
    }
    let mut r: Vec<char> = Vec::new();
    let mut k: usize = i;
    while k < j
        invariant
            i <= k <= j <= n,
            n == s.len(),
            r@ == s@.subrange(i as int, k as int),
        decreases j - k,
    {
        r.push(s[k]);
        assert(r@ =~= s@.subrange(i as int, k as int + 1));
        k = k + 1;
    }
    r
}

/// Trailing-whitespace-trimmed copy of `s` (`str::trim_end`).
pub fn trim_end_chars(s: &Vec<char>) -> (r: Vec<char>)
    ensures
        r@ == trim_end(s@),
{
    let n = s.len();
    let mut j: usize = n;
    while j > 0 && is_whitespace(s[j - 1])
        invariant
            j <= n,
            n == s.len(),
            forall|k: int| j <= k < n ==> is_ws(#[trigger] s@[k]),
        decreases j,
    {
        j = j - 1;
    }
    proof {
        lemma_trim_end_take(s@, j as int);
    }
    let mut r: Vec<char> = Vec::new();
    let mut k: usize = 0;
    while k < j
        invariant
            k <= j <= n,
            n == s.len(),
            r@ == s@.subrange(0, k as int),
        decreases j - k,
    {
        r.push(s[k]);
        assert(r@ =~= s@.subrange(0, k as int + 1));
        k = k + 1;
    }
    r
}

/// Whether `s` holds only whitespace, i.e. its trim is empty.
pub fn is_blank(s: &Vec<char>) -> (b: bool)
    ensures
        b == (trim(s@).len() == 0),
        b == all_ws(s@),
{
    let n = s.len();
    let mut i: usize = 0;
    while i < n
        invariant
            i <= n,
            n == s.len(),
            forall|k: int| 0 <= k < i ==> is_ws(#[trigger] s@[k]),
        decreases n - i,
    {
        if !is_whitespace(s[i]) {
            proof {
                lemma_trim_start_skip(s@, i as int);
                let t = s@.subrange(i as int, n as int);
                assert(t[0] == s@[i as int]);
                lemma_trim_end_keeps(t);
            }
            return false;
        }
        i = i + 1;
    }
    proof {
        lemma_trim_start_skip(s@, n as int);
        assert(s@.subrange(n as int, n as int).len() == 0);
    }
    true
}

/// Trimming the end of a string that starts with a non-blank keeps that first character.
proof fn lemma_trim_end_keeps(t: Seq<char>)
    requires
        t.len() > 0,
        !is_ws(t[0]),
    ensures
        trim_end(t).len() > 0,
    decreases t.len(),
{
    if is_ws(t.last()) {
        assert(t.len() > 1);
        assert(t.drop_last()[0] == t[0]);
        lemma_trim_end_keeps(t.drop_last());
    }
}


/// Index of the first `'\n'` in `s`, or `s.len()` when there is none.
pub open spec fn newline_at(s: Seq<char>) -> int
    decreases s.len(),
{
    if s.len() == 0 {
        0
    } else if s[0] == '\n' {
        0
    } else {
        1 + newline_at(s.drop_first())
    }
}

/// `line` without one trailing `'\r'`.
pub open spec fn strip_cr(line: Seq<char>) -> Seq<char> {
    if line.len() > 0 && line.last() == '\r' {
        line.drop_last()
    } else {
        line
    }
}

/// The lines of `s` as `str::lines` yields them: split at `'\n'`, a `'\r'`
/// directly before a `'\n'` dropped, and no empty line after a final `'\n'`.
pub open spec fn lines(s: Seq<char>) -> Seq<Seq<char>>
    decreases s.len(),
{
    if s.len() == 0 {
        seq![]
    } else {
        let k = newline_at(s);
        if k >= s.len() {
            seq![s]
        } else {
            proof {
                lemma_newline_at_bounds(s);
            }
            seq![strip_cr(s.take(k))] + lines(s.skip(k + 1))
        }
    }
}

/// First line of `s`, or the empty string when `s` has no line.
pub open spec fn first_line(s: Seq<char>) -> Seq<char> {
    if lines(s).len() > 0 {
        lines(s)[0]
    } else {
        seq![]
    }
}

pub proof fn lemma_newline_at_bounds(s: Seq<char>)
    ensures
        0 <= newline_at(s) <= s.len(),
        newline_at(s) < s.len() ==> s[newline_at(s)] == '\n',
        forall|i: int| 0 <= i < newline_at(s) ==> s[i] != '\n',
    decreases s.len(),
{
    if s.len() > 0 && s[0] != '\n' {
        lemma_newline_at_bounds(s.drop_first());
        assert forall|i: int| 0 <= i < newline_at(s) implies s[i] != '\n' by {
            if i > 0 {
                assert(s.drop_first()[i - 1] == s[i]);
            }
        }
    }
}

proof fn lemma_newline_at_is(s: Seq<char>, k: int)
    requires
        0 <= k <= s.len(),
        forall|i: int| 0 <= i < k ==> s[i] != '\n',
        k < s.len() ==> s[k] == '\n',
    ensures
        newline_at(s) == k,
    decreases k,
{
    if k > 0 {
        assert forall|i: int| 0 <= i < k - 1 implies s.drop_first()[i] != '\n' by {
            assert(s.drop_first()[i] == s[i + 1]);
        }
        if k - 1 < s.drop_first().len() {
            assert(s.drop_first()[k - 1] == s[k]);
        }
        lemma_newline_at_is(s.drop_first(), k - 1);
    }
}

/// Copy of `s[from..to]`.
pub fn slice_chars(s: &Vec<char>, from: usize, to: usize) -> (r: Vec<char>)
    requires
        from <= to <= s.len(),
    ensures
        r@ == s@.subrange(from as int, to as int),
{
    let mut r: Vec<char> = Vec::new();
    let mut k: usize = from;
    while k < to
        invariant
            from <= k <= to <= s.len(),
            r@ == s@.subrange(from as int, k as int),
        decreases to - k,
    {
        r.push(s[k]);
        assert(r@ =~= s@.subrange(from as int, k as int + 1));
        k = k + 1;
    }
    r
}

/// The lines of `s` (`str::lines`).
pub fn split_lines(s: &Vec<char>) -> (r: Vec<Vec<char>>)
    ensures
        r@.len() == lines(s@).len(),
        forall|i: int| 0 <= i < r@.len() ==> #[trigger] r@[i]@ == lines(s@)[i],
{
    let n = s.len();
    let mut r: Vec<Vec<char>> = Vec::new();
    let mut start: usize = 0;
    let ghost mut acc: Seq<Seq<char>> = seq![];
    assert(s@.skip(0) =~= s@);
    while start < n
        invariant
            start <= n,
            n == s.len(),
            r@.len() == acc.len(),
            forall|i: int| 0 <= i < r@.len() ==> #[trigger] r@[i]@ == acc[i],
            acc + lines(s@.skip(start as int)) == lines(s@),
        decreases n - start,
    {
        let ghost rest = s@.skip(start as int);
        let mut k: usize = start;
        while k < n && s[k] != '\n'
            invariant
                start <= k <= n,
                n == s.len(),
                forall|i: int| start <= i < k ==> s@[i] != '\n',
            decreases n - k,
        {
            k = k + 1;
        }
        proof {
            assert forall|i: int| 0 <= i < k - start implies rest[i] != '\n' by {
                assert(rest[i] == s@[start + i]);
            }
            if k < n {
                assert(rest[k - start] == s@[k as int]);
            }
            lemma_newline_at_is(rest, k - start);
        }
        if k < n {
            let mut end = k;
            if end > start && s[end - 1] == '\r' {
                end = end - 1;
            }
            let line = slice_chars(s, start, end);
            proof {
                assert(rest.take(k - start) =~= s@.subrange(start as int, k as int));
                assert(strip_cr(rest.take(k - start)) =~= line@);
                assert(rest.skip(k - start + 1) =~= s@.skip(k + 1));
                acc = acc.push(line@);
                assert(lines(rest) == seq![line@] + lines(s@.skip(k + 1)));
                assert(acc + lines(s@.skip(k + 1)) =~= (acc.drop_last() + lines(rest)));
            }
            r.push(line);
            start = k + 1;
        } else {
            let line = slice_chars(s, start, n);
            proof {
                assert(rest =~= line@);
                acc = acc.push(line@);
                assert(s@.skip(n as int).len() == 0);
                assert(lines(s@.skip(n as int)) =~= Seq::<Seq<char>>::empty());
                assert(acc + lines(s@.skip(n as int)) =~= acc.drop_last() + lines(rest));
            }
            r.push(line);
            start = n;
        }
    }
    proof {
        assert(s@.skip(n as int).len() == 0);
        assert(acc + lines(s@.skip(n as int)) =~= acc);
    }
    r
}

/// The decimal digit character for `d < 10`.
pub open spec fn digit_char(d: nat) -> char {
    (d + 48) as char
}

/// Decimal representation of `n`, without leading zeros.
pub open spec fn decimal(n: nat) -> Seq<char>
    decreases n,
{
    if n < 10 {
        seq![digit_char(n)]
    } else {
        decimal(n / 10).push(digit_char(n % 10))
    }
}

fn digit(d: u64) -> (c: char)
    requires
        d < 10,
    ensures
        c == digit_char(d as nat),
{
    if d == 0 { '0' }
    else if d == 1 { '1' }
    else if d == 2 { '2' }
    else if d == 3 { '3' }
    else if d == 4 { '4' }
    else if d == 5 { '5' }
    else if d == 6 { '6' }
    else if d == 7 { '7' }
    else if d == 8 { '8' }
    else { '9' }
}

/// Appends the decimal representation of `n` to `out`.
pub fn push_decimal(out: &mut Vec<char>, n: u64)
    ensures
        final(out)@ == old(out)@ + decimal(n as nat),
    decreases n,
{
    if n >= 10 {
        push_decimal(out, n / 10);
    }
    out.push(digit(n % 10));
    proof {
        if n >= 10 {
            assert(old(out)@ + decimal(n as nat) =~= old(out)@ + decimal((n / 10) as nat) + seq![digit_char((n % 10) as nat)]);
        } else {
            assert(old(out)@ + decimal(n as nat) =~= old(out)@.push(digit_char(n as nat)));
        }
    }
}

/// Appends the characters of a string slice to `out`.
pub fn push_str(out: &mut Vec<char>, s: &str)
    ensures
        final(out)@ == old(out)@ + s@,
{
    let v = chars_of(s);
    push_all(out, &v);
}

/// Appends `v` to `out`.
pub fn push_all(out: &mut Vec<char>, v: &Vec<char>)
    ensures
        final(out)@ == old(out)@ + v@,
{
    let ghost o = out@;
    let mut i: usize = 0;
    while i < v.len()
        invariant
            i <= v.len(),
            out@ == o + v@.take(i as int),
        decreases v.len() - i,
    {
        out.push(v[i]);
        assert(o + v@.take(i as int + 1) =~= (o + v@.take(i as int)).push(v@[i as int]));
        i = i + 1;
    }
    assert(v@.take(v.len() as int) =~= v@);
}

/// Whether `c` is an ASCII decimal digit (what `char::to_digit(10)` accepts).
pub open spec fn is_digit(c: char) -> bool {
    '0' <= c && c <= '9'
}

/// Value of a string of decimal digits.
pub open spec fn digits_value(s: Seq<char>) -> nat
    decreases s.len(),
{
    if s.len() == 0 {
        0
    } else {
        digits_value(s.drop_last()) * 10 + ((s.last() as nat) - 48) as nat
    }
}

/// `s` without one leading `'+'`.
pub open spec fn unsigned_digits(s: Seq<char>) -> Seq<char> {
    if s.len() > 0 && s[0] == '+' {
        s.drop_first()
    } else {
        s
    }
}

/// Whether every character of `s` is an ASCII digit.
pub open spec fn all_digits(s: Seq<char>) -> bool {
    forall|i: int| 0 <= i < s.len() ==> is_digit(#[trigger] s[i])
}

/// What `str::parse` gives for an unsigned integer type whose maximum is
/// `max`: an optional `'+'`, then at least one ASCII digit and nothing
/// else, and a value that fits.
pub open spec fn parse_unsigned(s: Seq<char>, max: nat) -> Option<nat> {
    let d = unsigned_digits(s);
    if d.len() > 0 && all_digits(d) && digits_value(d) <= max {
        Some(digits_value(d))
    } else {
        None
    }
}

proof fn lemma_digits_value_grows(s: Seq<char>, i: int)
    requires
        0 <= i <= s.len(),
        forall|k: int| 0 <= k < s.len() ==> is_digit(#[trigger] s[k]),
    ensures
        digits_value(s.take(i)) <= digits_value(s),
    decreases s.len() - i,
{
    if i < s.len() {
        assert(s.drop_last().take(i) =~= s.take(i)) by {
            if i < s.len() {
            }
        };
        lemma_digits_value_grows(s.drop_last(), i);
    } else {
        assert(s.take(i) =~= s);
    }
}

/// Parses `s` as `str::parse::<u32>` would, capped at `max`.
pub fn parse_u32(s: &Vec<char>, max: u32) -> (r: Option<u32>)
    ensures
        match parse_unsigned(s@, max as nat) {
            Some(v) => r == Some(v as u32),
            None => r is None,
        },
{
    let n = s.len();
    let start: usize = if n > 0 && s[0] == '+' { 1 } else { 0 };
    let ghost d = unsigned_digits(s@);
    assert(d =~= s@.skip(start as int));
    if start >= n {
        return None;
    }
    let mut acc: u64 = 0;
    let mut i: usize = start;
    while i < n
        invariant
            start <= i <= n,
            n == s.len(),
            d == s@.skip(start as int),
            d == unsigned_digits(s@),
            forall|k: int| start <= k < i ==> is_digit(#[trigger] s@[k]),
            acc == digits_value(d.take(i - start)),
            acc <= max,
        decreases n - i,
    {
        let c = s[i];
        if !('0' <= c && c <= '9') {
            proof {
                assert(d[i - start] == c);
                assert(!is_digit(d[i - start]));
                assert(!all_digits(d));
            }
            return None;
        }
        let dv: u64 = (c as u64) - 48;
        proof {
            assert(d.take(i - start + 1).drop_last() =~= d.take(i - start));
            assert(d.take(i - start + 1).last() == c);
        }
        let next: u64 = acc * 10 + dv;
        if next > max as u64 {
            proof {
                if all_digits(d) {
                    lemma_digits_value_grows(d, i - start + 1);
                }
            }
            return None;
        }
        acc = next;
        i = i + 1;
    }
    proof {
        assert(d.take(n - start) =~= d);
        assert forall|k: int| 0 <= k < d.len() implies is_digit(#[trigger] d[k]) by {
            assert(d[k] == s@[start + k]);
        };
    }
    Some(acc as u32)
}

/// ASCII lowercase of `c`; every other character is left alone.
pub open spec fn ascii_lower(c: char) -> char {
    if 'A' <= c && c <= 'Z' {
        ((c as u32) + 32) as char
    } else {
        c
    }
}

pub fn to_ascii_lower(c: char) -> (r: char)
    ensures
        r == ascii_lower(c),
{
    if 'A' <= c && c <= 'Z' {
        (((c as u32) + 32) as u8) as char
    } else {
        c
    }
}

/// Whether `s` equals `word` ignoring ASCII case.
pub open spec fn eq_ignore_ascii_case(s: Seq<char>, word: Seq<char>) -> bool {
    s.len() == word.len() && forall|i: int|
        0 <= i < s.len() ==> ascii_lower(#[trigger] s[i]) == ascii_lower(word[i])
}

pub fn chars_eq_ignore_ascii_case(s: &Vec<char>, word: &str) -> (b: bool)
    ensures
        b == eq_ignore_ascii_case(s@, word@),
{
    let w = chars_of(word);
    if s.len() != w.len() {
        return false;
    }
    let mut i: usize = 0;
    while i < s.len()
        invariant
            i <= s.len(),
            s.len() == w.len(),
            w@ == word@,
            forall|k: int| 0 <= k < i ==> ascii_lower(#[trigger] s@[k]) == ascii_lower(w@[k]),
        decreases s.len() - i,
    {
        if to_ascii_lower(s[i]) != to_ascii_lower(w[i]) {
            return false;
        }
        i = i + 1;
    }
    true
}

pub fn chars_eq(a: &Vec<char>, b: &Vec<char>) -> (r: bool)
    ensures
        r == (a@ == b@),
{
    if a.len() != b.len() {
        return false;
    }
    let mut i: usize = 0;
    while i < a.len()
        invariant
            i <= a.len(),
            a.len() == b.len(),
            forall|k: int| 0 <= k < i ==> a@[k] == b@[k],
        decreases a.len() - i,
    {
        if a[i] != b[i] {
            return false;
        }
        i = i + 1;
    }
    assert(a@ =~= b@);
    true
}

pub fn str_eq(a: &str, b: &str) -> (r: bool)
    ensures
        r == (a@ == b@),
{
    let x = chars_of(a);
    let y = chars_of(b);
    chars_eq(&x, &y)
}


/// The predicate "equals `c`".
pub open spec fn is_char(c: char) -> spec_fn(char) -> bool {
    |x: char| x == c
}

/// Index of the first `c` in `s`, or `s.len()` when there is none.
pub open spec fn index_of(s: Seq<char>, c: char) -> int {
    match crate::order::first_where(s, is_char(c)) {
        Some(i) => i,
        None => s.len() as int,
    }
}

/// Index of the first `c` in `s` (`s.len()` when there is none).
pub fn find_char(s: &Vec<char>, c: char) -> (i: usize)
    ensures
        i == index_of(s@, c),
        i <= s.len(),
        i < s.len() ==> s@[i as int] == c,
        forall|k: int| 0 <= k < i ==> s@[k] != c,
{
    let mut i: usize = 0;
    while i < s.len() && s[i] != c
        invariant
            i <= s.len(),
            forall|k: int| 0 <= k < i ==> s@[k] != c,
        decreases s.len() - i,
    {
        i = i + 1;
    }
    proof {
        crate::order::lemma_first_where(s@, is_char(c), i as int);
    }
    i
}


/// Whether every character of `s` is ASCII.
pub open spec fn all_ascii(s: Seq<char>) -> bool {
    forall|i: int| 0 <= i < s.len() ==> (#[trigger] s[i] as u32) < 128
}

/// The lowercase form of `s` as std's `str::to_lowercase` computes it from
/// the Unicode case tables.
pub uninterp spec fn lowercase(s: Seq<char>) -> Seq<char>;

/// Lowercases a string with std's `str::to_lowercase`, which maps each
/// character through Unicode's lowercase mapping. The mapping itself is
/// named, not restated; the contract adds what the documentation plainly
/// gives for ASCII input: `A`–`Z` become `a`–`z` and every other ASCII
/// character stays.
#[verifier::external_body]
pub(crate) fn to_lowercase(s: &str) -> (r: String)
    ensures
        r@ == lowercase(s@),
        all_ascii(s@) ==> r@ == s@.map_values(|c: char| ascii_lower(c)),
{
    s.to_lowercase()
}

/// The contents of a list of strings.
pub open spec fn string_views(v: Seq<String>) -> Seq<Seq<char>> {
    v.map_values(|l: String| l@)
}

/// Bytes that `c` takes in UTF-8.
pub open spec fn utf8_width(c: char) -> nat {
    let u = c as u32;
    if u < 0x80 {
        1
    } else if u < 0x800 {
        2
    } else if u < 0x10000 {
        3
    } else {
        4
    }
}

/// Length of `s` in UTF-8 bytes (`str::len`).
pub open spec fn byte_len(s: Seq<char>) -> nat
    decreases s.len(),
{
    if s.len() == 0 {
        0
    } else {
        byte_len(s.drop_last()) + utf8_width(s.last())
    }
}

/// Number of leading characters of `s` that fit in `max` UTF-8 bytes.
pub open spec fn chars_within(s: Seq<char>, max: nat) -> nat
    decreases s.len(),
{
    if byte_len(s) <= max {
        s.len()
    } else {
        chars_within(s.drop_last(), max)
    }
}

/// Whether cutting `s` after `max` bytes falls between two characters
/// (`str::is_char_boundary`); always so when `s` is no longer than `max`.
pub open spec fn cut_on_boundary(s: Seq<char>, max: nat) -> bool {
    byte_len(s) > max ==> byte_len(s.take(chars_within(s, max) as int)) == max
}

/// UTF-8 width of one character (`char::len_utf8`).
pub fn char_width(c: char) -> (w: usize)
    ensures
        w == utf8_width(c),
{
    let u = c as u32;
    if u < 0x80 {
        1
    } else if u < 0x800 {
        2
    } else if u < 0x10000 {
        3
    } else {
        4
    }
}

/// A longer prefix takes at least as many bytes.
pub proof fn lemma_byte_len_prefix_mono(s: Seq<char>, i: int, j: int)
    requires
        0 <= i <= j <= s.len(),
    ensures
        byte_len(s.take(i)) <= byte_len(s.take(j)),
    decreases j - i,
{
    if i < j {
        lemma_byte_len_prefix_mono(s, i, j - 1);
        assert(s.take(j).drop_last() =~= s.take(j - 1));
    }
}

/// `k` is the number of leading characters within `max` bytes when the
/// first `k` fit and one more would not.
pub proof fn lemma_chars_within(s: Seq<char>, max: nat, k: int)
    requires
        0 <= k <= s.len(),
        byte_len(s.take(k)) <= max,
        k == s.len() || byte_len(s.take(k + 1)) > max,
    ensures
        chars_within(s, max) == k,
    decreases s.len(),
{
    assert(s.take(s.len() as int) =~= s);
    if byte_len(s) <= max {
        if k < s.len() {
            lemma_byte_len_prefix_mono(s, k + 1, s.len() as int);
        }
    } else {
        let t = s.drop_last();
        assert(t.take(k) =~= s.take(k));
        if k + 1 <= t.len() {
            assert(t.take(k + 1) =~= s.take(k + 1));
        }
        lemma_chars_within(t, max, k);
    }
}

/// Number of leading characters of `s` that fit in `max` UTF-8 bytes.
pub fn count_chars_within(s: &Vec<char>, max: usize) -> (k: usize)
    ensures
        k == chars_within(s@, max as nat),
        k <= s.len(),
        byte_len(s@.take(k as int)) <= max,
        k < s.len() <==> byte_len(s@) > max,
{
    let mut k: usize = 0;
    let mut used: usize = 0;
    while k < s.len() && char_width(s[k]) <= max - used
        invariant
            k <= s.len(),
            used == byte_len(s@.take(k as int)),
            used <= max,
        decreases s.len() - k,
    {
        assert(s@.take(k as int + 1).drop_last() =~= s@.take(k as int));
        used = used + char_width(s[k]);
        k = k + 1;
    }
    proof {
        if k < s.len() {
            assert(s@.take(k as int + 1).drop_last() =~= s@.take(k as int));
        }
        lemma_chars_within(s@, max as nat, k as int);
        assert(s@.take(s.len() as int) =~= s@);
        if k < s.len() {
            lemma_byte_len_prefix_mono(s@, k as int + 1, s.len() as int);
        }
    }
    k
}

/// `line` cut to its first `max` bytes with `…` appended when it is longer.
pub open spec fn shortened(line: Seq<char>, max: nat) -> Seq<char> {
    if byte_len(line) > max {
        line.take(chars_within(line, max) as int).push('…')
    } else {
        line
    }
}

/// Cuts `line` to its first `max` bytes and appends `…` when it is longer;
/// the cut must fall between two characters.
pub fn shorten(line: &Vec<char>, max: usize) -> (r: Vec<char>)
    requires
        cut_on_boundary(line@, max as nat),
    ensures
        r@ == shortened(line@, max as nat),
{
    let k = count_chars_within(line, max);
    if k < line.len() {
        let mut r = slice_chars(line, 0, k);
        r.push('…');
        assert(line@.subrange(0, k as int) =~= line@.take(k as int));
        r
    } else {
        slice_chars(line, 0, line.len())
    }
}

/// The first line of `s` (`s.lines().next().unwrap_or("")`).
pub fn first_line_of(s: &Vec<char>) -> (r: Vec<char>)
    ensures
        r@ == first_line(s@),
{
    let ls = split_lines(s);
    if ls.len() > 0 {
        slice_chars(&ls[0], 0, ls[0].len())
    } else {
        Vec::new()
    }
}

/// The width of the first character plus the bytes of the rest.
pub proof fn lemma_byte_len_first(s: Seq<char>)
    requires
        s.len() > 0,
    ensures
        byte_len(s) == utf8_width(s[0]) + byte_len(s.drop_first()),
    decreases s.len(),
{
    if s.len() > 1 {
        lemma_byte_len_first(s.drop_last());
        assert(s.drop_last().drop_first() =~= s.drop_first().drop_last());
        assert(s.drop_first().last() == s.last());
        assert(s.drop_last()[0] == s[0]);
        assert(byte_len(s.drop_first()) == byte_len(s.drop_first().drop_last()) + utf8_width(
            s.drop_first().last(),
        ));
    } else {
        assert(s.drop_first().len() == 0);
        assert(s.drop_last().len() == 0);
        assert(s.last() == s[0]);
        assert(byte_len(s.drop_first()) == 0);
        assert(byte_len(s.drop_last()) == 0);
    }
}

/// A shorter suffix takes no more bytes.
pub proof fn lemma_byte_len_suffix_mono(s: Seq<char>, i: int, j: int)
    requires
        0 <= i <= j <= s.len(),
    ensures
        byte_len(s.skip(j)) <= byte_len(s.skip(i)),
    decreases j - i,
{
    if i < j {
        lemma_byte_len_suffix_mono(s, i + 1, j);
        lemma_byte_len_first(s.skip(i));
        assert(s.skip(i).drop_first() =~= s.skip(i + 1));
    }
}

/// Number of trailing characters of `s` that fit in `max` UTF-8 bytes.
pub open spec fn tail_chars_within(s: Seq<char>, max: nat) -> nat
    decreases s.len(),
{
    if byte_len(s) <= max || s.len() == 0 {
        s.len()
    } else {
        tail_chars_within(s.drop_first(), max)
    }
}

/// `k` is the number of trailing characters within `max` bytes when the
/// last `k` fit and one more would not.
pub proof fn lemma_tail_chars_within(s: Seq<char>, max: nat, k: int)
    requires
        0 <= k <= s.len(),
        byte_len(s.skip(s.len() - k)) <= max,
        k == s.len() || byte_len(s.skip(s.len() - k - 1)) > max,
    ensures
        tail_chars_within(s, max) == k,
    decreases s.len(),
{
    assert(s.skip(0) =~= s);
    if byte_len(s) <= max {
        if k < s.len() {
            lemma_byte_len_suffix_mono(s, 0, s.len() - k - 1);
        }
    } else {
        let t = s.drop_first();
        assert(t.skip(t.len() - k) =~= s.skip(s.len() - k));
        if k + 1 <= t.len() {
            assert(t.skip(t.len() - k - 1) =~= s.skip(s.len() - k - 1));
        }
        lemma_tail_chars_within(t, max, k);
    }
}

/// Number of trailing characters of `s` that fit in `max` UTF-8 bytes.
pub fn count_tail_chars_within(s: &Vec<char>, max: usize) -> (k: usize)
    ensures
        k == tail_chars_within(s@, max as nat),
        k <= s.len(),
        k < s.len() <==> byte_len(s@) > max,
{
    let n = s.len();
    let mut k: usize = 0;
    let mut used: usize = 0;
    while k < n && char_width(s[n - 1 - k]) <= max - used
        invariant
            k <= n,
            n == s.len(),
            used == byte_len(s@.skip(n - k)),
            used <= max,
        decreases n - k,
    {
        proof {
            lemma_byte_len_first(s@.skip(n - k - 1));
            assert(s@.skip(n - k - 1).drop_first() =~= s@.skip(n - k));
        }
        used = used + char_width(s[n - 1 - k]);
        k = k + 1;
    }
    proof {
        if k < n {
            lemma_byte_len_first(s@.skip(n - k - 1));
            assert(s@.skip(n - k - 1).drop_first() =~= s@.skip(n - k));
            lemma_byte_len_suffix_mono(s@, 0, n - k - 1);
        }
        lemma_tail_chars_within(s@, max as nat, k as int);
        assert(s@.skip(0) =~= s@);
    }
    k
}

/// Whether keeping the last `max` bytes of `s` cuts between two characters;
/// always so when `s` is no longer than `max`.
pub open spec fn tail_cut_on_boundary(s: Seq<char>, max: nat) -> bool {
    byte_len(s) > max ==> byte_len(s.skip(s.len() - tail_chars_within(s, max))) == max
}

/// `s` cut to its last `max` bytes behind a `…` when it is longer.
pub open spec fn tail_shortened(s: Seq<char>, max: nat) -> Seq<char> {
    if byte_len(s) > max {
        seq!['…'] + s.skip(s.len() - tail_chars_within(s, max))
    } else {
        s
    }
}

/// Keeps the last `max` bytes of `s` behind a `…` when it is longer; the
/// cut must fall between two characters.
pub fn shorten_tail(s: &Vec<char>, max: usize) -> (r: Vec<char>)
    requires
        tail_cut_on_boundary(s@, max as nat),
    ensures
        r@ == tail_shortened(s@, max as nat),
{
    let k = count_tail_chars_within(s, max);
    if k < s.len() {
        let mut r: Vec<char> = vec!['…'];
        let tail = slice_chars(s, s.len() - k, s.len());
        push_all(&mut r, &tail);
        assert(s@.subrange(s.len() - k, s.len() as int) =~= s@.skip(s.len() - k));
        assert(r@ =~= tail_shortened(s@, max as nat));
        r
    } else {
        slice_chars(s, 0, s.len())
    }
}

/// `n` of something, spelled as the terminal shows it: `"no <noun>s"`,
/// `"1 <noun>"`, `"<n> <noun>s"`.
pub open spec fn counted(n: nat, noun: Seq<char>) -> Seq<char> {
    if n == 0 {
        seq!['n', 'o', ' '] + noun + seq!['s']
    } else if n == 1 {
        seq!['1', ' '] + noun
    } else {
        decimal(n) + seq![' '] + noun + seq!['s']
    }
}

/// Spells a count of `noun`s, e.g. `"no tasks"`, `"1 task"`, `"3 tasks"`.
pub fn count_phrase(n: usize, noun: &str) -> (r: String)
    ensures
        r@ == counted(n as nat, noun@),
{
    let mut v: Vec<char> = Vec::new();
    if n == 0 {
        v.push('n');
        v.push('o');
        v.push(' ');
        push_str(&mut v, noun);
        v.push('s');
    } else if n == 1 {
        v.push('1');
        v.push(' ');
        push_str(&mut v, noun);
    } else {
        push_decimal(&mut v, n as u64);
        v.push(' ');
        push_str(&mut v, noun);
        v.push('s');
    }
    assert(v@ =~= counted(n as nat, noun@));
    string_of(&v)
}

/// The decimal form of `n` is a nonempty run of digits, with no `'+'` and
/// no `'.'`, whose value is `n`.
pub proof fn lemma_decimal_digits(n: nat)
    ensures
        decimal(n).len() > 0,
        all_digits(decimal(n)),
        digits_value(decimal(n)) == n,
        !decimal(n).contains('.'),
        decimal(n)[0] != '+',
    decreases n,
{
    let d = decimal(n);
    if n < 10 {
        assert(d == seq![digit_char(n)]);
        assert(digit_char(n) as nat == n + 48);
        assert(d.drop_last().len() == 0);
        assert(digits_value(d.drop_last()) == 0);
        assert(d.last() == digit_char(n));
        if d.contains('.') {
            assert(d[0] == '.');
        }
    } else {
        lemma_decimal_digits(n / 10);
        let p = decimal(n / 10);
        assert(d == p.push(digit_char(n % 10)));
        assert(d.drop_last() =~= p);
        assert(digit_char(n % 10) as nat == n % 10 + 48);
        assert(d.last() == digit_char(n % 10));
        assert(digits_value(d) == digits_value(p) * 10 + n % 10);
        assert(n == (n / 10) * 10 + n % 10);
        assert forall|i: int| 0 <= i < d.len() implies is_digit(#[trigger] d[i]) by {
            if i < p.len() {
                assert(d[i] == p[i]);
            }
        }
        if d.contains('.') {
            let i = choose|i: int| 0 <= i < d.len() && d[i] == '.';
            if i < p.len() {
                assert(d[i] == p[i]);
            }
        }
        assert(d[0] == p[0]);
    }
}

/// `str::parse` reads the decimal form of `n` back as `n`.
pub proof fn lemma_parse_decimal(n: nat, max: nat)
    requires
        n <= max,
    ensures
        parse_unsigned(decimal(n), max) == Some(n),
{
    lemma_decimal_digits(n);
}

/// Whether `a` occurs in `b` as a contiguous piece.
pub open spec fn occurs_in(a: Seq<char>, b: Seq<char>) -> bool {
    exists|i: int| 0 <= i && i + a.len() <= b.len() && #[trigger] b.subrange(i, i + a.len()) == a
}

/// A piece of `x` is a piece of anything that contains `x`.
pub proof fn lemma_occurs_in_concat(a: Seq<char>, x: Seq<char>, before: Seq<char>, after: Seq<char>)
    requires
        occurs_in(a, x),
    ensures
        occurs_in(a, before + x + after),
{
    let i = choose|i: int| 0 <= i && i + a.len() <= x.len() && #[trigger] x.subrange(i, i + a.len()) == a;
    let b = before + x + after;
    let j = before.len() + i;
    assert(b.subrange(j, j + a.len()) =~= a);
}

/// Every sequence occurs in itself.
pub proof fn lemma_occurs_in_self(a: Seq<char>)
    ensures
        occurs_in(a, a),
{
    let z: int = 0;
    assert(a.subrange(z, z + a.len()) =~= a);
}

/// A piece of a piece of `c` is a piece of `c`.
pub proof fn lemma_occurs_in_trans(a: Seq<char>, b: Seq<char>, c: Seq<char>)
    requires
        occurs_in(a, b),
        occurs_in(b, c),
    ensures
        occurs_in(a, c),
{
    let i = choose|i: int| 0 <= i && i + a.len() <= b.len() && #[trigger] b.subrange(i, i + a.len()) == a;
    let j = choose|j: int| 0 <= j && j + b.len() <= c.len() && #[trigger] c.subrange(j, j + b.len()) == b;
    assert(c.subrange(j + i, j + i + a.len()) =~= a) by {
        assert forall|k: int| 0 <= k < a.len() implies c.subrange(j + i, j + i + a.len())[k] == a[k] by {
            assert(b.subrange(i, i + a.len())[k] == b[i + k]);
            assert(c.subrange(j, j + b.len())[i + k] == c[j + i + k]);
        }
    }
}

/// Trimming the start drops exactly the leading whitespace: what is left
/// is a suffix of `s` that does not start with whitespace.
pub proof fn lemma_trim_start_cut(s: Seq<char>)
    ensures
        trim_start(s).len() <= s.len(),
        trim_start(s) == s.subrange(s.len() - trim_start(s).len(), s.len() as int),
        forall|k: int| 0 <= k < s.len() - trim_start(s).len() ==> is_ws(#[trigger] s[k]),
        trim_start(s).len() > 0 ==> !is_ws(trim_start(s)[0]),
    decreases s.len(),
{
    if s.len() > 0 && is_ws(s[0]) {
        let d = s.drop_first();
        lemma_trim_start_cut(d);
        assert forall|k: int| 0 <= k < s.len() - trim_start(s).len() implies is_ws(#[trigger] s[k]) by {
            if k > 0 {
                assert(s[k] == d[k - 1]);
            }
        }
        assert(d.subrange(d.len() - trim_start(d).len(), d.len() as int) =~= s.subrange(
            s.len() - trim_start(s).len(),
            s.len() as int,
        ));
    } else {
        assert(s.subrange(0, s.len() as int) =~= s);
    }
}

/// Trimming the end drops exactly the trailing whitespace: what is left is
/// a prefix of `s` that does not end with whitespace.
pub proof fn lemma_trim_end_cut(s: Seq<char>)
    ensures
        trim_end(s).len() <= s.len(),
        trim_end(s) == s.subrange(0, trim_end(s).len() as int),
        forall|k: int| trim_end(s).len() <= k < s.len() ==> is_ws(#[trigger] s[k]),
        trim_end(s).len() > 0 ==> !is_ws(trim_end(s).last()),
    decreases s.len(),
{
    if s.len() > 0 && is_ws(s.last()) {
        let d = s.drop_last();
        lemma_trim_end_cut(d);
        assert forall|k: int| trim_end(s).len() <= k < s.len() implies is_ws(#[trigger] s[k]) by {
            if k < s.len() - 1 {
                assert(s[k] == d[k]);
            }
        }
        assert(d.subrange(0, trim_end(d).len() as int) =~= s.subrange(0, trim_end(s).len() as int));
    } else {
        assert(s.subrange(0, s.len() as int) =~= s);
    }
}

/// `trim` keeps a contiguous piece of `s`, cutting only whitespace on both
/// sides, and the piece neither starts nor ends with whitespace.
pub proof fn lemma_trim_cut(s: Seq<char>)
    ensures
        exists|i: int, j: int|
            0 <= i <= j <= s.len() && trim(s) == #[trigger] s.subrange(i, j) && (forall|k: int|
                0 <= k < i ==> is_ws(#[trigger] s[k])) && (forall|k: int| j <= k < s.len() ==> is_ws(#[trigger] s[k])),
        trim(s).len() > 0 ==> !is_ws(trim(s)[0]) && !is_ws(trim(s).last()),
{
    lemma_trim_start_cut(s);
    let a = trim_start(s);
    lemma_trim_end_cut(a);
    let i = s.len() - a.len();
    let j = i + trim_end(a).len();
    assert(trim(s) =~= s.subrange(i, j));
    assert forall|k: int| j <= k < s.len() implies is_ws(#[trigger] s[k]) by {
        assert(s[k] == a[k - i]);
    }
    if trim(s).len() > 0 {
        assert(trim(s)[0] == a[0]);
    }
}

} // verus!
