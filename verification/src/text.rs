//! Character-level text handling used throughout the configuration code:
//! whitespace trimming, splitting at a separator, decimal port numbers and
//! ASCII case folding.
use vstd::prelude::*;

verus! {

broadcast use vstd::string::group_string_axioms;

/// Unicode `White_Space`: the characters that `char::is_whitespace` accepts.
pub open spec fn is_white_space(c: char) -> bool {
    let n = c as u32;
    ||| 9 <= n <= 13
    ||| n == 32
    ||| n == 0x85
    ||| n == 0xA0
    ||| n == 0x1680
    ||| 0x2000 <= n <= 0x200A
    ||| n == 0x2028
    ||| n == 0x2029
    ||| n == 0x202F
    ||| n == 0x205F
    ||| n == 0x3000
}

/// `s` without its leading white space.
pub open spec fn trim_start(s: Seq<char>) -> Seq<char>
    decreases s.len(),
{
    if s.len() > 0 && is_white_space(s[0]) {
        trim_start(s.drop_first())
    } else {
        s
    }
}

/// `s` without its trailing white space.
pub open spec fn trim_end(s: Seq<char>) -> Seq<char>
    decreases s.len(),
{
    if s.len() > 0 && is_white_space(s.last()) {
        trim_end(s.drop_last())
    } else {
        s
    }
}

/// `s` without leading and trailing white space, as `str::trim` gives it.
pub open spec fn trim(s: Seq<char>) -> Seq<char> {
    trim_end(trim_start(s))
}

/// The parts of `s` before and after the first occurrence of `c`,
/// as `str::split_once` gives them; `None` where `c` does not occur.
pub open spec fn split_once(s: Seq<char>, c: char) -> Option<(Seq<char>, Seq<char>)>
    decreases s.len(),
{
    if s.len() == 0 {
        None
    } else if s[0] == c {
        Some((Seq::<char>::empty(), s.drop_first()))
    } else {
        match split_once(s.drop_first(), c) {
            Some(parts) => Some((seq![s[0]].add(parts.0), parts.1)),
            None => None,
        }
    }
}

/// `s` without the leading and trailing occurrences of `c`, as
/// `str::trim_matches` with a single character gives it.
pub open spec fn trim_char(s: Seq<char>, c: char) -> Seq<char>
    decreases s.len(),
{
    if s.len() > 0 && s[0] == c {
        trim_char(s.drop_first(), c)
    } else if s.len() > 0 && s.last() == c {
        trim_char(s.drop_last(), c)
    } else {
        s
    }
}

pub open spec fn is_ascii_digit(c: char) -> bool {
    48 <= (c as u32) <= 57
}

pub open spec fn digit_value(c: char) -> nat {
    ((c as u32) - 48) as nat
}

/// The number that the decimal digits `d` denote (most significant first).
pub open spec fn decimal_value(d: Seq<char>) -> nat
    decreases d.len(),
{
    if d.len() == 0 {
        0
    } else {
        decimal_value(d.drop_last()) * 10 + digit_value(d.last())
    }
}

pub open spec fn all_ascii_digits(d: Seq<char>) -> bool {
    forall|i: int| 0 <= i < d.len() ==> is_ascii_digit(#[trigger] d[i])
}

/// The digits of an unsigned number: one leading `+` is allowed.
pub open spec fn unsigned_digits(s: Seq<char>) -> Seq<char> {
    if s.len() > 0 && s[0] == '+' {
        s.drop_first()
    } else {
        s
    }
}

/// What `str::parse::<u16>` gives: a non-empty run of ASCII digits, after
/// at most one `+`, whose value fits in 16 bits.
pub open spec fn parse_u16(s: Seq<char>) -> Option<u16> {
    let d = unsigned_digits(s);
    if d.len() > 0 && all_ascii_digits(d) && decimal_value(d) <= 65535 {
        Some(decimal_value(d) as u16)
    } else {
        None
    }
}

/// ASCII upper-case letters to lower case; every other character unchanged.
pub open spec fn ascii_lower(c: char) -> char {
    if 65 <= (c as u32) <= 90 {
        ((c as u32) + 32) as char
    } else {
        c
    }
}

/// `str::to_ascii_lowercase`.
pub open spec fn ascii_lowercase(s: Seq<char>) -> Seq<char> {
    s.map_values(|c: char| ascii_lower(c))
}

/// `s` starts with `p`.
pub open spec fn has_prefix(s: Seq<char>, p: Seq<char>) -> bool {
    p.len() <= s.len() && s.take(p.len() as int) == p
}

/// `s` ends with `p`.
pub open spec fn has_suffix(s: Seq<char>, p: Seq<char>) -> bool {
    p.len() <= s.len() && s.skip(s.len() - p.len()) == p
}

// ---------------------------------------------------------------------------
// Lemmas
// ---------------------------------------------------------------------------

pub proof fn lemma_trim_start_skip(s: Seq<char>, i: int)
    requires
        0 <= i <= s.len(),
        forall|j: int| 0 <= j < i ==> is_white_space(#[trigger] s[j]),
    ensures
        trim_start(s) == trim_start(s.skip(i)),
    decreases i,
{
    if i > 0 {
        assert(s.drop_first().skip(i - 1) =~= s.skip(i));
        lemma_trim_start_skip(s.drop_first(), i - 1);
    } else {
        assert(s.skip(0) =~= s);
    }
}

pub proof fn lemma_trim_end_take(s: Seq<char>, j: int)
    requires
        0 <= j <= s.len(),
        forall|k: int| j <= k < s.len() ==> is_white_space(#[trigger] s[k]),
    ensures
        trim_end(s) == trim_end(s.take(j)),
    decreases s.len() - j,
{
    if j < s.len() {
        assert(s.drop_last().take(j) =~= s.take(j));
        lemma_trim_end_take(s.drop_last(), j);
    } else {
        assert(s.take(j) =~= s);
    }
}

pub proof fn lemma_split_once_at(s: Seq<char>, c: char, k: int)
    requires
        0 <= k < s.len(),
        s[k] == c,
        forall|j: int| 0 <= j < k ==> #[trigger] s[j] != c,
    ensures
        split_once(s, c) == Some((s.take(k), s.skip(k + 1))),
    decreases k,
{
    if k == 0 {
        assert(s.take(0) =~= Seq::<char>::empty());
        assert(s.skip(1) =~= s.drop_first());
    } else {
        let t = s.drop_first();
        assert forall|j: int| 0 <= j < k - 1 implies #[trigger] t[j] != c by {
            assert(s[j + 1] != c);
        }
        lemma_split_once_at(t, c, k - 1);
        assert(seq![s[0]].add(t.take(k - 1)) =~= s.take(k));
        assert(t.skip(k) =~= s.skip(k + 1));
    }
}

pub proof fn lemma_split_once_none(s: Seq<char>, c: char)
    requires
        forall|j: int| 0 <= j < s.len() ==> #[trigger] s[j] != c,
    ensures
        split_once(s, c) is None,
    decreases s.len(),
{
    if s.len() > 0 {
        let t = s.drop_first();
        assert forall|j: int| 0 <= j < t.len() implies #[trigger] t[j] != c by {
            assert(s[j + 1] != c);
        }
        lemma_split_once_none(t, c);
    }
}

pub proof fn lemma_decimal_step(d: Seq<char>, i: int)
    requires
        0 <= i < d.len(),
    ensures
        decimal_value(d.take(i + 1)) == decimal_value(d.take(i)) * 10 + digit_value(d[i]),
{
    assert(d.take(i + 1).drop_last() =~= d.take(i));
}

/// Appending a digit never makes a decimal number smaller.
pub proof fn lemma_decimal_monotone(d: Seq<char>, i: int, j: int)
    requires
        0 <= i <= j <= d.len(),
    ensures
        decimal_value(d.take(i)) <= decimal_value(d.take(j)),
    decreases j - i,
{
    if i < j {
        lemma_decimal_monotone(d, i, j - 1);
        lemma_decimal_step(d, j - 1);
    }
}

proof fn lemma_trim_start_shape(s: Seq<char>)
    ensures
        trim_start(s).len() > 0 ==> !is_white_space(trim_start(s)[0]),
        exists|i: int| 0 <= i <= s.len() && trim_start(s) == s.skip(i),
    decreases s.len(),
{
    if s.len() > 0 && is_white_space(s[0]) {
        lemma_trim_start_shape(s.drop_first());
        let i = choose|i: int| 0 <= i <= s.drop_first().len() && trim_start(s.drop_first()) == s.drop_first().skip(i);
        assert(s.drop_first().skip(i) =~= s.skip(i + 1));
    } else {
        assert(s.skip(0) =~= s);
    }
}

proof fn lemma_trim_end_shape(s: Seq<char>)
    ensures
        trim_end(s).len() > 0 ==> !is_white_space(trim_end(s).last()),
        exists|j: int| 0 <= j <= s.len() && trim_end(s) == s.take(j),
    decreases s.len(),
{
    if s.len() > 0 && is_white_space(s.last()) {
        lemma_trim_end_shape(s.drop_last());
        let j = choose|j: int| 0 <= j <= s.drop_last().len() && trim_end(s.drop_last()) == s.drop_last().take(j);
        assert(s.drop_last().take(j) =~= s.take(j));
    } else {
        assert(s.take(s.len() as int) =~= s);
    }
}

/// Trimming twice is trimming once: a trimmed text neither starts nor
/// ends with white space.
pub proof fn law_trim_idempotent(s: Seq<char>)
    ensures
        trim(trim(s)) == trim(s),
        trim(s).len() > 0 ==> !is_white_space(trim(s)[0]) && !is_white_space(trim(s).last()),
{
    let u = trim_start(s);
    lemma_trim_start_shape(s);
    lemma_trim_end_shape(u);
    let r = trim_end(u);
    let j = choose|j: int| 0 <= j <= u.len() && r == u.take(j);
    if r.len() > 0 {
        assert(r[0] == u[0]);
    }
    assert(trim_start(r) == r);
    assert(trim_end(r) == r);
}

/// Splitting at the first `c` loses nothing: the parts joined around `c`
/// give back the text, and the first part holds no `c`.
pub proof fn law_split_once_rejoins(s: Seq<char>, c: char)
    ensures
        split_once(s, c) matches Some(parts) ==> parts.0 + seq![c] + parts.1 == s
            && !parts.0.contains(c),
        split_once(s, c) is None ==> !s.contains(c),
    decreases s.len(),
{
    if s.len() > 0 {
        law_split_once_rejoins(s.drop_first(), c);
        if s[0] == c {
            assert(Seq::<char>::empty() + seq![c] + s.drop_first() =~= s);
        } else {
            match split_once(s.drop_first(), c) {
                Some(parts) => {
                    assert(parts.0 + seq![c] + parts.1 == s.drop_first());
                    assert(seq![s[0]] + s.drop_first() =~= s);
                    assert(seq![s[0]].add(parts.0) + seq![c] + parts.1 =~= seq![s[0]] + (parts.0
                        + seq![c] + parts.1));
                    if (seq![s[0]].add(parts.0)).contains(c) {
                        let k = choose|k: int| 0 <= k < parts.0.len() + 1 && #[trigger] seq![s[0]].add(parts.0)[k] == c;
                        assert(parts.0[k - 1] == c);
                    }
                },
                None => {
                    if s.contains(c) {
                        let k = choose|k: int| 0 <= k < s.len() && #[trigger] s[k] == c;
                        assert(s.drop_first()[k - 1] == c);
                    }
                },
            }
        }
    }
}

// ---------------------------------------------------------------------------
// Executable functions
// ---------------------------------------------------------------------------

/// The characters of `s`, one element per `char`.
pub fn char_vec(s: &str) -> (v: Vec<char>)
    ensures
        v@ == s@,
{
    let mut v: Vec<char> = Vec::new();
    for c in it: s.chars()
        invariant
            v@ == it.seq().take(it.index() as int),
    {
        v.push(c);
    }
    v
}

/// `char::is_whitespace`.
pub fn is_white_space_char(c: char) -> (b: bool)
    ensures
        b == is_white_space(c),
{
    let n = c as u32;
    (9 <= n && n <= 13) || n == 32 || n == 0x85 || n == 0xA0 || n == 0x1680 || (0x2000 <= n && n
        <= 0x200A) || n == 0x2028 || n == 0x2029 || n == 0x202F || n == 0x205F || n == 0x3000
}

/// `str::trim`: `s` without leading and trailing white space.
pub fn trim_str(s: &str) -> (r: &str)
    ensures
        r@ == trim(s@),
{
    let v = char_vec(s);
    let n = v.len();
    let mut i: usize = 0;
    while i < n && is_white_space_char(v[i])
        invariant
            n == v@.len(),
            v@ == s@,
            i <= n,
            forall|j: int| 0 <= j < i ==> is_white_space(#[trigger] s@[j]),
        decreases n - i,
    {
        i = i + 1;
    }
    proof {
        lemma_trim_start_skip(s@, i as int);
    }
    let mut j: usize = n;
    while j > i && is_white_space_char(v[j - 1])
        invariant
            n == v@.len(),
            v@ == s@,
            i <= j <= n,
            forall|k: int| j <= k < n ==> is_white_space(#[trigger] s@[k]),
        decreases j,
    {
        j = j - 1;
    }
    proof {
        let t = s@.skip(i as int);
        assert(trim_start(t) == t);
        assert forall|k: int| j - i <= k < t.len() implies is_white_space(#[trigger] t[k]) by {
            assert(t[k] == s@[k + i]);
        }
        lemma_trim_end_take(t, j - i);
        assert(t.take(j - i) =~= s@.subrange(i as int, j as int));
    }
    s.substring_char(i, j)
}

/// The index of the first `c` in `s`, or `None` where `c` does not occur.
pub fn find_char(s: &[char], c: char) -> (r: Option<usize>)
    ensures
        r matches Some(k) ==> k < s@.len() && s@[k as int] == c && forall|j: int|
            0 <= j < k ==> #[trigger] s@[j] != c,
        r is None ==> forall|j: int| 0 <= j < s@.len() ==> #[trigger] s@[j] != c,
{
    let mut k: usize = 0;
    while k < s.len()
        invariant
            k <= s@.len(),
            forall|j: int| 0 <= j < k ==> #[trigger] s@[j] != c,
        decreases s@.len() - k,
    {
        if s[k] == c {
            return Some(k);
        }
        k = k + 1;
    }
    None
}

/// `str::split_once` with a single-character separator.
pub fn split_once_str(s: &str, c: char) -> (r: Option<(&str, &str)>)
    ensures
        match r {
            Some(parts) => split_once(s@, c) == Some((parts.0@, parts.1@)),
            None => split_once(s@, c) is None,
        },
{
    let v = char_vec(s);
    match find_char(v.as_slice(), c) {
        Some(k) => {
            proof {
                lemma_split_once_at(s@, c, k as int);
            }
            let n = v.len();
            let a = s.substring_char(0, k);
            let b = s.substring_char(k + 1, n);
            proof {
                assert(s@.subrange(0, k as int) =~= s@.take(k as int));
                assert(s@.subrange(k + 1, n as int) =~= s@.skip(k + 1));
            }
            Some((a, b))
        },
        None => {
            proof {
                lemma_split_once_none(s@, c);
            }
            None
        },
    }
}

/// `str::parse::<u16>`, reduced to whether and what it parses.
pub fn parse_u16_str(s: &str) -> (r: Option<u16>)
    ensures
        r == parse_u16(s@),
{
    let v = char_vec(s);
    let n = v.len();
    let start: usize = if n > 0 && v[0] == '+' {
        1
    } else {
        0
    };
    let ghost d = unsigned_digits(s@);
    assert(d =~= s@.skip(start as int));
    if start >= n {
        return None;
    }
    let mut acc: u32 = 0;
    let mut i: usize = start;
    while i < n
        invariant
            v@ == s@,
            n == v@.len(),
            d =~= s@.skip(start as int),
            d == unsigned_digits(s@),
            start <= i <= n,
            start < n,
            acc <= 65535,
            all_ascii_digits(d.take(i - start)),
            acc as nat == decimal_value(d.take(i - start)),
        decreases n - i,
    {
        let c = v[i];
        let code = c as u32;
        proof {
            lemma_decimal_step(d, i - start);
            assert(d[i - start] == c);
        }
        if code < 48 || code > 57 {
            assert(!is_ascii_digit(d[i - start]));
            assert(!all_ascii_digits(d));
            return None;
        }
        let next = acc * 10 + (code - 48);
        if next > 65535 {
            proof {
                lemma_decimal_monotone(d, i - start + 1, d.len() as int);
                assert(d.take(d.len() as int) =~= d);
            }
            return None;
        }
        acc = next;
        proof {
            assert forall|k: int| 0 <= k < i - start + 1 implies is_ascii_digit(
                #[trigger] d.take(i - start + 1)[k],
            ) by {
                if k < i - start {
                    assert(d.take(i - start)[k] == d.take(i - start + 1)[k]);
                }
            }
        }
        i = i + 1;
    }
    assert(d.take(n - start) =~= d);
    Some(acc as u16)
}

/// Whether `s`, with ASCII letters taken in lower case, is `lower`.
pub fn eq_ascii_lowercase(s: &str, lower: &str) -> (b: bool)
    ensures
        b == (ascii_lowercase(s@) == lower@),
{
    let v = char_vec(s);
    let w = char_vec(lower);
    if v.len() != w.len() {
        assert(ascii_lowercase(s@).len() != lower@.len());
        return false;
    }
    let mut i: usize = 0;
    while i < v.len()
        invariant
            v@ == s@,
            w@ == lower@,
            v@.len() == w@.len(),
            i <= v@.len(),
            forall|k: int| 0 <= k < i ==> ascii_lower(#[trigger] s@[k]) == lower@[k],
        decreases v@.len() - i,
    {
        let c = v[i];
        let code = c as u32;
        let lc: char = if 65 <= code && code <= 90 {
            ascii_lower_char(c)
        } else {
            c
        };
        if lc != w[i] {
            assert(ascii_lowercase(s@)[i as int] != lower@[i as int]);
            return false;
        }
        i = i + 1;
    }
    assert(ascii_lowercase(s@) =~= lower@);
    true
}

/// The lower-case form of an ASCII upper-case letter.
fn ascii_lower_char(c: char) -> (r: char)
    requires
        65 <= (c as u32) <= 90,
    ensures
        r == ascii_lower(c),
{
    let code = c as u8;
    let lower = code + 32;
    lower as char
}

proof fn lemma_trim_char_skip(s: Seq<char>, c: char, i: int)
    requires
        0 <= i <= s.len(),
        forall|j: int| 0 <= j < i ==> #[trigger] s[j] == c,
    ensures
        trim_char(s, c) == trim_char(s.skip(i), c),
    decreases i,
{
    if i > 0 {
        assert(s.drop_first().skip(i - 1) =~= s.skip(i));
        lemma_trim_char_skip(s.drop_first(), c, i - 1);
    } else {
        assert(s.skip(0) =~= s);
    }
}

proof fn lemma_trim_char_take(t: Seq<char>, c: char, j: int)
    requires
        1 <= j <= t.len(),
        t[0] != c,
        forall|k: int| j <= k < t.len() ==> #[trigger] t[k] == c,
    ensures
        trim_char(t, c) == trim_char(t.take(j), c),
    decreases t.len() - j,
{
    if j < t.len() {
        assert(t.drop_last().take(j) =~= t.take(j));
        lemma_trim_char_take(t.drop_last(), c, j);
    } else {
        assert(t.take(j) =~= t);
    }
}

/// `str::trim_matches` with one character: `s` without the leading and
/// trailing occurrences of `c`.
pub fn trim_matches_char(s: &str, c: char) -> (r: &str)
    ensures
        r@ == trim_char(s@, c),
{
    let v = char_vec(s);
    let n = v.len();
    let mut i: usize = 0;
    while i < n && v[i] == c
        invariant
            v@ == s@,
            n == v@.len(),
            i <= n,
            forall|j: int| 0 <= j < i ==> #[trigger] s@[j] == c,
        decreases n - i,
    {
        i = i + 1;
    }
    proof {
        lemma_trim_char_skip(s@, c, i as int);
    }
    if i == n {
        assert(s@.skip(i as int) =~= Seq::<char>::empty());
        let r = s.substring_char(i, i);
        assert(r@ =~= Seq::<char>::empty());
        return r;
    }
    let mut j: usize = n;
    while j > i + 1 && v[j - 1] == c
        invariant
            v@ == s@,
            n == v@.len(),
            i < n,
            i + 1 <= j <= n,
            forall|k: int| j <= k < n ==> #[trigger] s@[k] == c,
        decreases j,
    {
        j = j - 1;
    }
    proof {
        let t = s@.skip(i as int);
        assert(t[0] == s@[i as int]);
        assert forall|k: int| j - i <= k < t.len() implies #[trigger] t[k] == c by {
            assert(t[k] == s@[k + i]);
        }
        lemma_trim_char_take(t, c, j - i);
        let u = t.take(j - i);
        assert(u =~= s@.subrange(i as int, j as int));
        assert(u[0] != c);
        assert(u.last() == s@[j - 1]);
    }
    s.substring_char(i, j)
}

/// Whether `a` and `b` hold the same characters.
pub fn str_eq(a: &str, b: &str) -> (r: bool)
    ensures
        r == (a@ == b@),
{
    let v = char_vec(a);
    let w = char_vec(b);
    if v.len() != w.len() {
        return false;
    }
    let mut i: usize = 0;
    while i < v.len()
        invariant
            v@ == a@,
            w@ == b@,
            v@.len() == w@.len(),
            i <= v@.len(),
            forall|k: int| 0 <= k < i ==> #[trigger] a@[k] == b@[k],
        decreases v@.len() - i,
    {
        if v[i] != w[i] {
            return false;
        }
        i = i + 1;
    }
    assert(a@ =~= b@);
    true
}

/// Whether `s` starts with `p`.
pub fn starts_with_str(s: &str, p: &str) -> (b: bool)
    ensures
        b == has_prefix(s@, p@),
{
    let v = char_vec(s);
    let w = char_vec(p);
    if w.len() > v.len() {
        return false;
    }
    let mut i: usize = 0;
    while i < w.len()
        invariant
            v@ == s@,
            w@ == p@,
            w@.len() <= v@.len(),
            i <= w@.len(),
            forall|k: int| 0 <= k < i ==> #[trigger] s@[k] == p@[k],
        decreases w@.len() - i,
    {
        if v[i] != w[i] {
            assert(s@.take(p@.len() as int)[i as int] != p@[i as int]);
            return false;
        }
        i = i + 1;
    }
    assert(s@.take(p@.len() as int) =~= p@);
    true
}

/// Whether `s` ends with `p`.
pub fn ends_with_str(s: &str, p: &str) -> (b: bool)
    ensures
        b == has_suffix(s@, p@),
{
    let v = char_vec(s);
    let w = char_vec(p);
    if w.len() > v.len() {
        return false;
    }
    let off = v.len() - w.len();
    let mut i: usize = 0;
    while i < w.len()
        invariant
            v@ == s@,
            w@ == p@,
            off + w@.len() == v@.len(),
            v@.len() == v.len(),
            i <= w@.len(),
            forall|k: int| 0 <= k < i ==> #[trigger] s@[off + k] == p@[k],
        decreases w@.len() - i,
    {
        if v[off + i] != w[i] {
            assert(s@.skip(off as int)[i as int] != p@[i as int]);
            return false;
        }
        i = i + 1;
    }
    assert forall|k: int| 0 <= k < p@.len() implies #[trigger] s@.skip(off as int)[k] == p@[k] by {
        assert(s@[off + k] == p@[k]);
    }
    assert(s@.skip(off as int) =~= p@);
    true
}

/// What `str::to_uppercase` gives for `s`: the Unicode upper-case mapping.
pub uninterp spec fn unicode_uppercase(s: Seq<char>) -> Seq<char>;

/// `str::to_uppercase`. The contract claims only that the result is a
/// function of the characters of `s` alone; Unicode case mapping is not
/// written out here.
#[verifier::external_body]
pub(crate) fn to_uppercase_str(s: &str) -> (r: String)
    ensures
        r@ == unicode_uppercase(s@),
{
    s.to_uppercase()
}

} // verus!
