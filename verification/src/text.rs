//! Character-level text primitives shared by the parsers.
//!
//! Text is modelled as `Seq<char>`. The executable functions work on a slice of
//! characters and hand back index ranges into it, so that a parser decodes its
//! input once and allocates only the strings it returns.

use vstd::prelude::*;

verus! {

/// Whether `c` has the Unicode `White_Space` property.
pub open spec fn is_space(c: char) -> bool {
    let n = c as u32;
    (0x09 <= n && n <= 0x0D) || n == 0x20 || n == 0x85 || n == 0xA0 || n == 0x1680 || (0x2000
        <= n && n <= 0x200A) || n == 0x2028 || n == 0x2029 || n == 0x202F || n == 0x205F || n
        == 0x3000
}

/// `s` without its leading white space.
pub open spec fn trim_start(s: Seq<char>) -> Seq<char>
    decreases s.len(),
{
    if s.len() > 0 && is_space(s[0]) {
        trim_start(s.drop_first())
    } else {
        s
    }
}

/// `s` without its trailing white space.
pub open spec fn trim_end(s: Seq<char>) -> Seq<char>
    decreases s.len(),
{
    if s.len() > 0 && is_space(s.last()) {
        trim_end(s.drop_last())
    } else {
        s
    }
}

/// `s` without leading and trailing white space.
pub open spec fn trim(s: Seq<char>) -> Seq<char> {
    trim_end(trim_start(s))
}

/// Whether `s` begins with a white-space character.
pub open spec fn is_indented(s: Seq<char>) -> bool {
    s.len() > 0 && is_space(s[0])
}

/// `l` without one trailing carriage return.
pub open spec fn strip_cr(l: Seq<char>) -> Seq<char> {
    if l.len() > 0 && l.last() == '\r' {
        l.drop_last()
    } else {
        l
    }
}

/// The lines of `s[start..]`, given that the scan stands at `i` and the line
/// being read began at `start`.
pub open spec fn lines_scan(s: Seq<char>, i: int, start: int) -> Seq<Seq<char>>
    decreases s.len() - i,
{
    if i < 0 || i >= s.len() {
        if 0 <= start < s.len() {
            seq![s.subrange(start, s.len() as int)]
        } else {
            Seq::empty()
        }
    } else if s[i] == '\n' {
        seq![strip_cr(s.subrange(start, i))] + lines_scan(s, i + 1, i + 1)
    } else {
        lines_scan(s, i + 1, start)
    }
}

/// The lines of `s`. A line ends at a line feed; a carriage return right
/// before that line feed belongs to the line ending. Text after the last line
/// feed is a line if it is not empty.
pub open spec fn lines(s: Seq<char>) -> Seq<Seq<char>> {
    lines_scan(s, 0, 0)
}

/// The words of `s[start..]`, given that the scan stands at `i` and that
/// `s[start..i]` holds no white space.
pub open spec fn words_scan(s: Seq<char>, i: int, start: int) -> Seq<Seq<char>>
    decreases s.len() - i,
{
    if i < 0 || i >= s.len() {
        if 0 <= start < s.len() {
            seq![s.subrange(start, s.len() as int)]
        } else {
            Seq::empty()
        }
    } else if is_space(s[i]) {
        if start < i {
            seq![s.subrange(start, i)] + words_scan(s, i + 1, i + 1)
        } else {
            words_scan(s, i + 1, i + 1)
        }
    } else {
        words_scan(s, i + 1, start)
    }
}

/// The words of `s`: its maximal runs of characters that are not white space.
pub open spec fn words(s: Seq<char>) -> Seq<Seq<char>> {
    words_scan(s, 0, 0)
}

/// Position of the first `c` in `s` at or after `i`, or `s.len()` if there is none.
pub open spec fn find_from(s: Seq<char>, c: char, i: int) -> int
    decreases s.len() - i,
{
    if 0 <= i < s.len() && s[i] != c {
        find_from(s, c, i + 1)
    } else {
        i
    }
}

/// The code of `c`, or of its lower-case form if `c` is an ASCII capital letter.
pub open spec fn lower_code(c: char) -> u32 {
    let n = c as u32;
    if 0x41 <= n && n <= 0x5A {
        (n + 0x20) as u32
    } else {
        n
    }
}

/// Whether `a` and `b` are equal up to the case of ASCII letters.
pub open spec fn eq_ignore_case(a: Seq<char>, b: Seq<char>) -> bool {
    a.len() == b.len() && forall|i: int| 0 <= i < a.len() ==> lower_code(a[i]) == lower_code(b[i])
}

/// Whether `c` is an ASCII decimal digit.
pub open spec fn is_digit(c: char) -> bool {
    0x30 <= c as u32 && c as u32 <= 0x39
}

/// Whether `s` holds ASCII decimal digits only.
pub open spec fn all_digits(s: Seq<char>) -> bool {
    forall|i: int| 0 <= i < s.len() ==> is_digit(s[i])
}

/// The value of the digit `c`; zero for any other character.
pub open spec fn digit_value(c: char) -> nat {
    if is_digit(c) {
        (c as u32 - 0x30) as nat
    } else {
        0
    }
}

/// The number that the decimal digits `s` write.
pub open spec fn digits_value(s: Seq<char>) -> nat
    decreases s.len(),
{
    if s.len() == 0 {
        0
    } else {
        digits_value(s.drop_last()) * 10 + digit_value(s.last())
    }
}

/// The number that `s` writes in decimal: one or more ASCII digits, which a
/// single `+` may precede. `None` for any other text.
pub open spec fn parse_number(s: Seq<char>) -> Option<nat> {
    let d = if s.len() > 0 && s[0] == '+' {
        s.drop_first()
    } else {
        s
    };
    if d.len() > 0 && all_digits(d) {
        Some(digits_value(d))
    } else {
        None
    }
}

/// `s` after its last `c`; all of `s` if it holds no `c`.
pub open spec fn after_last(s: Seq<char>, c: char) -> Seq<char>
    decreases s.len(),
{
    if s.len() == 0 || s.last() == c {
        Seq::empty()
    } else {
        after_last(s.drop_last(), c).push(s.last())
    }
}

/// The joined pieces `parts[0] sep parts[1] sep ...`.
pub open spec fn join(parts: Seq<Seq<char>>, sep: Seq<char>) -> Seq<char>
    decreases parts.len(),
{
    if parts.len() == 0 {
        Seq::empty()
    } else if parts.len() == 1 {
        parts[0]
    } else {
        join(parts.drop_last(), sep) + sep + parts.last()
    }
}

/// Appending one character to a `String` appends it to the string's view.
pub assume_specification[ String::push ](s: &mut String, c: char)
    ensures
        final(s)@ == old(s)@.push(c),
;

/// Decides the Unicode `White_Space` property of a character.
pub fn is_whitespace(c: char) -> (r: bool)
    ensures
        r == is_space(c),
{
    let n: u32 = c as u32;
    (0x09 <= n && n <= 0x0D) || n == 0x20 || n == 0x85 || n == 0xA0 || n == 0x1680 || (0x2000
        <= n && n <= 0x200A) || n == 0x2028 || n == 0x2029 || n == 0x202F || n == 0x205F || n
        == 0x3000
}

/// The characters of `s`, in order.
pub fn to_chars(s: &str) -> (r: Vec<char>)
    ensures
        r@ == s@,
{
    let mut out: Vec<char> = Vec::new();
    for c in it: s.chars()
        invariant
            out@ == it.seq().take(it.index() as int),
            it.seq() == s@,
    {
        out.push(c);
    }
    out
}

/// The string made of `s[from..to]`.
pub fn from_chars(s: &[char], from: usize, to: usize) -> (r: String)
    requires
        from <= to <= s.len(),
    ensures
        r@ == s@.subrange(from as int, to as int),
{
    let mut out = String::new();
    let mut i: usize = from;
    while i < to
        invariant
            from <= i <= to <= s.len(),
            out@ == s@.subrange(from as int, i as int),
        decreases to - i,
    {
        out.push(s[i]);
        i += 1;
    }
    out
}

/// The bounds of `s[from..to]` without its leading and trailing white space.
pub fn trim_range(s: &[char], from: usize, to: usize) -> (r: (usize, usize))
    requires
        from <= to <= s.len(),
    ensures
        from <= r.0 <= r.1 <= to,
        s@.subrange(r.0 as int, r.1 as int) == trim(s@.subrange(from as int, to as int)),
{
    let mut lo: usize = from;
    while lo < to && is_whitespace(s[lo])
        invariant
            from <= lo <= to <= s.len(),
            trim_start(s@.subrange(from as int, to as int)) == trim_start(
                s@.subrange(lo as int, to as int),
            ),
        decreases to - lo,
    {
        assert(s@.subrange(lo as int, to as int).drop_first() =~= s@.subrange(
            lo as int + 1,
            to as int,
        ));
        lo += 1;
    }
    let mut hi: usize = to;
    while lo < hi && is_whitespace(s[hi - 1])
        invariant
            lo <= hi <= to <= s.len(),
            trim_end(s@.subrange(lo as int, to as int)) == trim_end(
                s@.subrange(lo as int, hi as int),
            ),
        decreases hi - lo,
    {
        assert(s@.subrange(lo as int, hi as int).drop_last() =~= s@.subrange(
            lo as int,
            hi as int - 1,
        ));
        hi -= 1;
    }
    (lo, hi)
}

/// Whether `s[from..to]` begins with `prefix`.
pub fn has_prefix(s: &[char], from: usize, to: usize, prefix: &[char]) -> (r: bool)
    requires
        from <= to <= s.len(),
    ensures
        r == prefix@.is_prefix_of(s@.subrange(from as int, to as int)),
{
    let n = prefix.len();
    if to - from < n {
        return false;
    }
    let mut k: usize = 0;
    while k < n
        invariant
            k <= n,
            n == prefix.len(),
            from <= to <= s.len(),
            to - from >= n,
            forall|j: int| 0 <= j < k ==> s@[from + j] == prefix@[j],
        decreases n - k,
    {
        if s[from + k] != prefix[k] {
            assert(s@.subrange(from as int, to as int)[k as int] != prefix@[k as int]);
            return false;
        }
        k += 1;
    }
    assert(s@.subrange(from as int, to as int).subrange(0, n as int) =~= prefix@);
    true
}

/// The position of the first `c` in `s[from..to]`, or `to` if there is none.
pub fn find_char(s: &[char], from: usize, to: usize, c: char) -> (r: usize)
    requires
        from <= to <= s.len(),
    ensures
        from <= r <= to,
        r - from == find_from(s@.subrange(from as int, to as int), c, 0),
        r < to ==> s@[r as int] == c,
        forall|j: int| from <= j < r ==> s@[j] != c,
{
    let ghost sub = s@.subrange(from as int, to as int);
    let mut i: usize = from;
    while i < to && s[i] != c
        invariant
            from <= i <= to <= s.len(),
            sub == s@.subrange(from as int, to as int),
            find_from(sub, c, 0) == find_from(sub, c, i - from),
            forall|j: int| from <= j < i ==> s@[j] != c,
        decreases to - i,
    {
        i += 1;
    }
    i
}

/// The lines of `s`, each as the bounds of its content in `s`.
pub fn line_ranges(s: &[char]) -> (r: Vec<(usize, usize)>)
    ensures
        r@.len() == lines(s@).len(),
        forall|k: int|
            0 <= k < r@.len() ==> (#[trigger] r@[k]).0 <= r@[k].1 <= s@.len() && s@.subrange(
                r@[k].0 as int,
                r@[k].1 as int,
            ) == lines(s@)[k],
{
    let n = s.len();
    let mut out: Vec<(usize, usize)> = Vec::new();
    let ghost mut done: Seq<Seq<char>> = Seq::empty();
    let mut start: usize = 0;
    let mut i: usize = 0;
    while i < n
        invariant
            n == s.len(),
            start <= i <= n,
            done + lines_scan(s@, i as int, start as int) == lines(s@),
            out@.len() == done.len(),
            forall|k: int|
                0 <= k < out@.len() ==> (#[trigger] out@[k]).0 <= out@[k].1 <= n && s@.subrange(
                    out@[k].0 as int,
                    out@[k].1 as int,
                ) == done[k],
        decreases n - i,
    {
        if s[i] == '\n' {
            let end: usize = if start < i && s[i - 1] == '\r' {
                i - 1
            } else {
                i
            };
            proof {
                let raw = s@.subrange(start as int, i as int);
                assert(strip_cr(raw) =~= s@.subrange(start as int, end as int));
                assert(done + (seq![strip_cr(raw)] + lines_scan(s@, i + 1, i + 1)) =~= done.push(
                    strip_cr(raw),
                ) + lines_scan(s@, i + 1, i + 1));
                done = done.push(strip_cr(raw));
            }
            out.push((start, end));
            start = i + 1;
        }
        i += 1;
    }
    if start < n {
        proof {
            assert(done + seq![s@.subrange(start as int, n as int)] =~= done.push(
                s@.subrange(start as int, n as int),
            ));
            done = done.push(s@.subrange(start as int, n as int));
        }
        out.push((start, n));
    } else {
        assert(done + Seq::<Seq<char>>::empty() =~= done);
    }
    out
}

/// The words of `s[from..to]`, each as its bounds in `s`.
pub fn word_ranges(s: &[char], from: usize, to: usize) -> (r: Vec<(usize, usize)>)
    requires
        from <= to <= s.len(),
    ensures
        r@.len() == words(s@.subrange(from as int, to as int)).len(),
        forall|k: int|
            0 <= k < r@.len() ==> from <= (#[trigger] r@[k]).0 < r@[k].1 <= to && s@.subrange(
                r@[k].0 as int,
                r@[k].1 as int,
            ) == words(s@.subrange(from as int, to as int))[k],
{
    let ghost sub = s@.subrange(from as int, to as int);
    let mut out: Vec<(usize, usize)> = Vec::new();
    let ghost mut done: Seq<Seq<char>> = Seq::empty();
    let mut start: usize = from;
    let mut i: usize = from;
    while i < to
        invariant
            from <= start <= i <= to <= s.len(),
            sub == s@.subrange(from as int, to as int),
            done + words_scan(sub, i - from, start - from) == words(sub),
            out@.len() == done.len(),
            forall|k: int|
                0 <= k < out@.len() ==> from <= (#[trigger] out@[k]).0 < out@[k].1 <= to
                    && s@.subrange(out@[k].0 as int, out@[k].1 as int) == done[k],
        decreases to - i,
    {
        if is_whitespace(s[i]) {
            if start < i {
                proof {
                    let w = sub.subrange(start - from, i - from);
                    assert(w =~= s@.subrange(start as int, i as int));
                    assert(done + (seq![w] + words_scan(sub, i - from + 1, i - from + 1))
                        =~= done.push(w) + words_scan(sub, i - from + 1, i - from + 1));
                    done = done.push(w);
                }
                out.push((start, i));
            }
            start = i + 1;
        }
        i += 1;
    }
    if start < to {
        proof {
            let w = sub.subrange(start - from, to - from);
            assert(w =~= s@.subrange(start as int, to as int));
            assert(done + seq![w] =~= done.push(w));
            done = done.push(w);
        }
        out.push((start, to));
    } else {
        assert(done + Seq::<Seq<char>>::empty() =~= done);
    }
    out
}

/// Whether `s[from..to]` equals `pattern` up to the case of ASCII letters.
pub fn matches_ignore_case(s: &[char], from: usize, to: usize, pattern: &[char]) -> (r: bool)
    requires
        from <= to <= s.len(),
    ensures
        r == eq_ignore_case(s@.subrange(from as int, to as int), pattern@),
{
    let n = pattern.len();
    if to - from != n {
        return false;
    }
    let ghost sub = s@.subrange(from as int, to as int);
    let mut k: usize = 0;
    while k < n
        invariant
            k <= n,
            n == pattern.len(),
            from <= to <= s.len(),
            to - from == n,
            sub == s@.subrange(from as int, to as int),
            forall|j: int| 0 <= j < k ==> lower_code(sub[j]) == lower_code(pattern@[j]),
        decreases n - k,
    {
        if to_lower_code(s[from + k]) != to_lower_code(pattern[k]) {
            assert(lower_code(sub[k as int]) != lower_code(pattern@[k as int]));
            return false;
        }
        k += 1;
    }
    true
}

/// The code of `c`, folded to lower case for ASCII letters.
pub fn to_lower_code(c: char) -> (r: u32)
    ensures
        r == lower_code(c),
{
    let n: u32 = c as u32;
    if 0x41 <= n && n <= 0x5A {
        n + 0x20
    } else {
        n
    }
}

/// The value of a prefix of a digit string is at most the value of the string.
proof fn lemma_prefix_value(s: Seq<char>, k: int)
    requires
        0 <= k <= s.len(),
    ensures
        digits_value(s.take(k)) <= digits_value(s),
    decreases s.len(),
{
    if k == s.len() {
        assert(s.take(k) =~= s);
    } else {
        assert(s.drop_last().take(k) =~= s.take(k));
        lemma_prefix_value(s.drop_last(), k);
    }
}

/// Reads `s[from..to]` as a decimal number.
pub fn parse_usize(s: &[char], from: usize, to: usize) -> (r: Option<usize>)
    requires
        from <= to <= s.len(),
    ensures
        r == match parse_number(s@.subrange(from as int, to as int)) {
            Some(v) => if v <= usize::MAX {
                Some(v as usize)
            } else {
                None
            },
            None => None,
        },
{
    let ghost sub = s@.subrange(from as int, to as int);
    let start: usize = if from < to && s[from] == '+' {
        from + 1
    } else {
        from
    };
    let ghost d = s@.subrange(start as int, to as int);
    assert(d =~= if sub.len() > 0 && sub[0] == '+' {
        sub.drop_first()
    } else {
        sub
    });
    if start == to {
        return None;
    }
    let mut acc: usize = 0;
    let mut i: usize = start;
    assert(d.take(0) =~= Seq::<char>::empty());
    while i < to
        invariant
            start <= i <= to <= s.len(),
            d == s@.subrange(start as int, to as int),
            d.len() > 0,
            parse_number(s@.subrange(from as int, to as int)) == if all_digits(d) {
                Some(digits_value(d))
            } else {
                None
            },
            all_digits(d.take(i - start)),
            acc == digits_value(d.take(i - start)),
        decreases to - i,
    {
        let n: u32 = s[i] as u32;
        if n < 0x30 || n > 0x39 {
            assert(!is_digit(d[i - start]));
            return None;
        }
        let digit: usize = (n - 0x30) as usize;
        let ghost next = d.take(i - start + 1);
        proof {
            assert(next.drop_last() =~= d.take(i - start));
            assert(next.last() == s@[i as int]);
            assert(digits_value(next) == acc * 10 + digit);
            lemma_prefix_value(d, i - start + 1);
        }
        let scaled = match acc.checked_mul(10) {
            Some(v) => v,
            None => {
                return None;
            },
        };
        acc = match scaled.checked_add(digit) {
            Some(v) => v,
            None => {
                return None;
            },
        };
        i += 1;
    }
    assert(d.take(to - start) =~= d);
    Some(acc)
}

/// The bounds of what follows the last `c` in `s[from..to]`; of all of it if
/// it holds no `c`.
pub fn after_last_range(s: &[char], from: usize, to: usize, c: char) -> (r: usize)
    requires
        from <= to <= s.len(),
    ensures
        from <= r <= to,
        s@.subrange(r as int, to as int) == after_last(s@.subrange(from as int, to as int), c),
{
    let ghost sub = s@.subrange(from as int, to as int);
    let mut lo: usize = to;
    assert(s@.subrange(to as int, to as int) =~= Seq::<char>::empty());
    assert(sub.take(0) =~= Seq::<char>::empty());
    while lo > from && s[lo - 1] != c
        invariant
            from <= lo <= to <= s.len(),
            sub == s@.subrange(from as int, to as int),
            forall|j: int| lo <= j < to ==> s@[j] != c,
        decreases lo - from,
    {
        lo -= 1;
    }
    proof {
        lemma_after_last(sub, c, lo - from);
        assert(sub.skip(lo - from) =~= s@.subrange(lo as int, to as int));
    }
    lo
}

/// If `s[k..]` holds no `c` and `s[k - 1]`, where there is one, is `c`, then
/// `s[k..]` is what follows the last `c` in `s`.
proof fn lemma_after_last(s: Seq<char>, c: char, k: int)
    requires
        0 <= k <= s.len(),
        forall|j: int| k <= j < s.len() ==> s[j] != c,
        k > 0 ==> s[k - 1] == c,
    ensures
        after_last(s, c) == s.skip(k),
    decreases s.len(),
{
    if s.len() == 0 || k == s.len() {
        assert(s.skip(k) =~= Seq::<char>::empty());
    } else {
        lemma_after_last(s.drop_last(), c, k);
        assert(s.drop_last().skip(k).push(s.last()) =~= s.skip(k));
    }
}

/// What [`trim_start`] leaves: the end of `s` from its first character that
/// is no white space.
pub proof fn lemma_trim_start(s: Seq<char>)
    ensures
        trim_start(s).len() <= s.len(),
        trim_start(s) == s.skip(s.len() - trim_start(s).len()),
        forall|j: int| 0 <= j < s.len() - trim_start(s).len() ==> is_space(s[j]),
        trim_start(s).len() > 0 ==> !is_space(trim_start(s)[0]),
    decreases s.len(),
{
    if s.len() > 0 && is_space(s[0]) {
        let rest = s.drop_first();
        lemma_trim_start(rest);
        let cut = rest.len() - trim_start(rest).len();
        assert(rest.skip(cut) =~= s.skip(cut + 1));
        assert forall|j: int| 0 <= j < s.len() - trim_start(s).len() implies is_space(s[j]) by {
            if j > 0 {
                assert(s[j] == rest[j - 1]);
            }
        }
    } else {
        assert(s.skip(0) =~= s);
    }
}

/// What [`trim_end`] leaves: the start of `s` up to its last character that
/// is no white space.
pub proof fn lemma_trim_end(s: Seq<char>)
    ensures
        trim_end(s).len() <= s.len(),
        trim_end(s) == s.take(trim_end(s).len() as int),
        forall|j: int| trim_end(s).len() <= j < s.len() ==> is_space(s[j]),
        trim_end(s).len() > 0 ==> !is_space(trim_end(s).last()),
    decreases s.len(),
{
    if s.len() > 0 && is_space(s.last()) {
        let rest = s.drop_last();
        lemma_trim_end(rest);
        assert(rest.take(trim_end(rest).len() as int) =~= s.take(trim_end(rest).len() as int));
        assert forall|j: int| trim_end(s).len() <= j < s.len() implies is_space(s[j]) by {
            if j < s.len() - 1 {
                assert(s[j] == rest[j]);
            }
        }
    } else {
        assert(s.take(s.len() as int) =~= s);
    }
}

/// What [`trim`] leaves: the stretch of `s` between its first and its last
/// character that is no white space. Outside that stretch `s` holds white
/// space only, and the stretch begins and ends with none.
pub proof fn lemma_trim(s: Seq<char>)
    ensures
        ({
            let t = trim(s);
            let lo = s.len() - trim_start(s).len();
            &&& 0 <= lo <= lo + t.len() <= s.len()
            &&& t == s.subrange(lo, lo + t.len())
            &&& forall|j: int| 0 <= j < lo ==> is_space(s[j])
            &&& forall|j: int| lo + t.len() <= j < s.len() ==> is_space(s[j])
            &&& t.len() > 0 ==> !is_space(t[0]) && !is_space(t.last())
        }),
{
    let mid = trim_start(s);
    let t = trim(s);
    let lo = s.len() - mid.len();
    lemma_trim_start(s);
    lemma_trim_end(mid);
    assert(t =~= s.subrange(lo, lo + t.len()));
    assert forall|j: int| lo + t.len() <= j < s.len() implies is_space(s[j]) by {
        assert(s[j] == mid[j - lo]);
    }
    if t.len() > 0 {
        assert(t[0] == mid[0]);
    }
}

/// Every word that a scan yields is non-empty and free of white space.
proof fn lemma_words_scan(s: Seq<char>, i: int, start: int, k: int)
    requires
        0 <= start <= i <= s.len(),
        forall|j: int| start <= j < i ==> !is_space(s[j]),
        0 <= k < words_scan(s, i, start).len(),
    ensures
        words_scan(s, i, start)[k].len() > 0,
        forall|j: int|
            0 <= j < words_scan(s, i, start)[k].len() ==> !is_space(
                #[trigger] words_scan(s, i, start)[k][j],
            ),
    decreases s.len() - i,
{
    if i >= s.len() {
    } else if is_space(s[i]) {
        if start < i {
            if k > 0 {
                lemma_words_scan(s, i + 1, i + 1, k - 1);
            }
        } else {
            lemma_words_scan(s, i + 1, i + 1, k);
        }
    } else {
        lemma_words_scan(s, i + 1, start, k);
    }
}

/// Every word of a text is non-empty and holds no white space.
pub proof fn lemma_words(s: Seq<char>, k: int)
    requires
        0 <= k < words(s).len(),
    ensures
        words(s)[k].len() > 0,
        forall|j: int| 0 <= j < words(s)[k].len() ==> !is_space(#[trigger] words(s)[k][j]),
{
    lemma_words_scan(s, 0, 0, k);
}

/// No line that a scan yields holds a line feed.
proof fn lemma_lines_scan(s: Seq<char>, i: int, start: int, k: int)
    requires
        0 <= start <= i <= s.len(),
        forall|j: int| start <= j < i ==> s[j] != '\n',
        0 <= k < lines_scan(s, i, start).len(),
    ensures
        forall|j: int|
            0 <= j < lines_scan(s, i, start)[k].len() ==> #[trigger] lines_scan(
                s,
                i,
                start,
            )[k][j] != '\n',
    decreases s.len() - i,
{
    if i >= s.len() {
        let line = s.subrange(start, s.len() as int);
        assert(lines_scan(s, i, start)[0] == line);
        assert forall|j: int| 0 <= j < line.len() implies line[j] != '\n' by {
            assert(line[j] == s[start + j]);
        }
    } else if s[i] == '\n' {
        if k > 0 {
            lemma_lines_scan(s, i + 1, i + 1, k - 1);
            assert(lines_scan(s, i, start)[k] == lines_scan(s, i + 1, i + 1)[k - 1]);
        } else {
            let line = strip_cr(s.subrange(start, i));
            assert(lines_scan(s, i, start)[0] == line);
            assert forall|j: int| 0 <= j < line.len() implies line[j] != '\n' by {
                assert(line[j] == s[start + j]);
            }
        }
    } else {
        lemma_lines_scan(s, i + 1, start, k);
    }
}

/// No line of a text holds a line feed.
pub proof fn lemma_lines(s: Seq<char>, k: int)
    requires
        0 <= k < lines(s).len(),
    ensures
        forall|j: int| 0 <= j < lines(s)[k].len() ==> #[trigger] lines(s)[k][j] != '\n',
{
    lemma_lines_scan(s, 0, 0, k);
}

} // verus!
