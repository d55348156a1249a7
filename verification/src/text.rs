use vstd::prelude::*;
use vstd::string::*;

verus! {

/// The characters of `s`, in order.
pub fn chars_of(s: &str) -> (r: Vec<char>)
    ensures
        r@ == s@,
{
    let mut r: Vec<char> = Vec::new();
    for c in it: s.chars()
        invariant
            it.seq() == s@,
            r@ == it.seq().take(it.index() as int),
    {
        r.push(c);
    }
    r
}

/// `s` ends with `suffix`.
pub open spec fn has_suffix(s: Seq<char>, suffix: Seq<char>) -> bool {
    suffix.len() <= s.len() && s.subrange(s.len() - suffix.len(), s.len() as int) == suffix
}

/// `s` begins with `prefix`.
pub open spec fn has_prefix(s: Seq<char>, prefix: Seq<char>) -> bool {
    prefix.len() <= s.len() && s.take(prefix.len() as int) == prefix
}

/// Whether `s` ends with `suffix`.
pub fn ends_with(s: &str, suffix: &str) -> (b: bool)
    ensures
        b == has_suffix(s@, suffix@),
{
    let sv = chars_of(s);
    let pv = chars_of(suffix);
    let n = sv.len();
    let m = pv.len();
    if m > n {
        return false;
    }
    let off = n - m;
    let mut i: usize = 0;
    while i < m
        invariant
            sv@ == s@,
            pv@ == suffix@,
            n == sv@.len(),
            m == pv@.len(),
            m <= n,
            off == n - m,
            i <= m,
            forall|j: int| 0 <= j < i ==> sv@[off + j] == pv@[j],
        decreases m - i,
    {
        if sv[off + i] != pv[i] {
            assert(s@.subrange(off as int, n as int)[i as int] != suffix@[i as int]);
            return false;
        }
        i = i + 1;
    }
    assert(s@.subrange(off as int, n as int) =~= suffix@);
    true
}

/// Whether `s` begins with `prefix`.
pub fn starts_with(s: &str, prefix: &str) -> (b: bool)
    ensures
        b == has_prefix(s@, prefix@),
{
    let sv = chars_of(s);
    let pv = chars_of(prefix);
    let n = sv.len();
    let m = pv.len();
    if m > n {
        return false;
    }
    let mut i: usize = 0;
    while i < m
        invariant
            sv@ == s@,
            pv@ == prefix@,
            n == sv@.len(),
            m == pv@.len(),
            m <= n,
            i <= m,
            forall|j: int| 0 <= j < i ==> sv@[j] == pv@[j],
        decreases m - i,
    {
        if sv[i] != pv[i] {
            assert(s@.take(m as int)[i as int] != prefix@[i as int]);
            return false;
        }
        i = i + 1;
    }
    assert(s@.take(m as int) =~= prefix@);
    true
}

/// Whether `a` and `b` hold the same characters.
pub fn str_eq(a: &str, b: &str) -> (r: bool)
    ensures
        r == (a@ == b@),
{
    let av = chars_of(a);
    let bv = chars_of(b);
    if av.len() != bv.len() {
        return false;
    }
    let mut i: usize = 0;
    while i < av.len()
        invariant
            av@ == a@,
            bv@ == b@,
            av@.len() == bv@.len(),
            i <= av@.len(),
            forall|j: int| 0 <= j < i ==> av@[j] == bv@[j],
        decreases av@.len() - i,
    {
        if av[i] != bv[i] {
            return false;
        }
        i = i + 1;
    }
    assert(a@ =~= b@);
    true
}

/// The index of the first `c` in `s` is `k` (`s.len()` when there is none).
pub open spec fn is_first_index_of(s: Seq<char>, c: char, k: int) -> bool {
    &&& 0 <= k <= s.len()
    &&& k < s.len() ==> s[k] == c
    &&& forall|i: int| 0 <= i < k ==> s[i] != c
}

/// The index of the first `c` in `s`, or `s.len()` when `c` does not occur.
pub open spec fn first_index_of(s: Seq<char>, c: char) -> int {
    choose|k: int| is_first_index_of(s, c, k)
}

pub proof fn lemma_first_index_of(s: Seq<char>, c: char, k: int)
    requires
        is_first_index_of(s, c, k),
    ensures
        first_index_of(s, c) == k,
{
    let j = first_index_of(s, c);
    assert(is_first_index_of(s, c, j));
    if j < k {
        assert(s[j] == c);
    } else if k < j {
        assert(s[k] == c);
    }
}

/// `s` starts with exactly `k` copies of `c`.
pub open spec fn is_leading_run(s: Seq<char>, c: char, k: int) -> bool {
    &&& 0 <= k <= s.len()
    &&& k < s.len() ==> s[k] != c
    &&& forall|i: int| 0 <= i < k ==> s[i] == c
}

/// The number of copies of `c` that `s` starts with.
pub open spec fn leading_run(s: Seq<char>, c: char) -> int {
    choose|k: int| is_leading_run(s, c, k)
}

pub proof fn lemma_leading_run(s: Seq<char>, c: char, k: int)
    requires
        is_leading_run(s, c, k),
    ensures
        leading_run(s, c) == k,
{
    let j = leading_run(s, c);
    assert(is_leading_run(s, c, j));
    if j < k {
        assert(s[j] == c);
    } else if k < j {
        assert(s[k] == c);
    }
}

/// The index of the last `c` in `s` is `k` (`-1` when there is none).
pub open spec fn is_last_index_of(s: Seq<char>, c: char, k: int) -> bool {
    &&& -1 <= k < s.len()
    &&& k >= 0 ==> s[k] == c
    &&& forall|i: int| k < i < s.len() ==> s[i] != c
}

/// The index of the last `c` in `s`, or `-1` when `c` does not occur.
pub open spec fn last_index_of(s: Seq<char>, c: char) -> int {
    choose|k: int| is_last_index_of(s, c, k)
}

pub proof fn lemma_last_index_of(s: Seq<char>, c: char, k: int)
    requires
        is_last_index_of(s, c, k),
    ensures
        last_index_of(s, c) == k,
{
    let j = last_index_of(s, c);
    assert(is_last_index_of(s, c, j));
    if j < k {
        assert(s[k] == c);
    } else if k < j {
        assert(s[j] == c);
    }
}

/// The first index of `c` in `v`, or `v.len()` when there is none.
pub fn find_first(v: &Vec<char>, c: char) -> (k: usize)
    ensures
        is_first_index_of(v@, c, k as int),
        k == first_index_of(v@, c),
{
    let mut i: usize = 0;
    while i < v.len() && v[i] != c
        invariant
            i <= v@.len(),
            forall|j: int| 0 <= j < i ==> v@[j] != c,
        decreases v@.len() - i,
    {
        i = i + 1;
    }
    proof {
        lemma_first_index_of(v@, c, i as int);
    }
    i
}

/// The number of copies of `c` that `v` starts with.
pub fn count_leading(v: &Vec<char>, c: char) -> (k: usize)
    ensures
        k == leading_run(v@, c),
        is_leading_run(v@, c, k as int),
{
    let mut i: usize = 0;
    while i < v.len() && v[i] == c
        invariant
            i <= v@.len(),
            forall|j: int| 0 <= j < i ==> v@[j] == c,
        decreases v@.len() - i,
    {
        i = i + 1;
    }
    proof {
        lemma_leading_run(v@, c, i as int);
    }
    i
}

/// The last index of `c` in `v`, if `c` occurs.
pub fn find_last(v: &Vec<char>, c: char) -> (r: Option<usize>)
    ensures
        match r {
            Some(k) => last_index_of(v@, c) == k && k < v@.len(),
            None => last_index_of(v@, c) == -1,
        },
{
    let mut i: usize = v.len();
    while i > 0
        invariant
            i <= v@.len(),
            forall|j: int| i <= j < v@.len() ==> v@[j] != c,
        decreases i,
    {
        if v[i - 1] == c {
            proof {
                lemma_last_index_of(v@, c, i - 1);
            }
            return Some(i - 1);
        }
        i = i - 1;
    }
    proof {
        lemma_last_index_of(v@, c, -1);
    }
    None
}

/// A character of the Unicode `White_Space` property, which is what
/// `char::is_whitespace` tests.
pub open spec fn is_white_space(c: char) -> bool {
    let u = c as u32;
    ||| 0x9 <= u <= 0xd
    ||| u == 0x20
    ||| u == 0x85
    ||| u == 0xa0
    ||| u == 0x1680
    ||| 0x2000 <= u <= 0x200a
    ||| u == 0x2028
    ||| u == 0x2029
    ||| u == 0x202f
    ||| u == 0x205f
    ||| u == 0x3000
}

/// Whether `c` is white space, as `char::is_whitespace` decides.
pub fn white_space(c: char) -> (b: bool)
    ensures
        b == is_white_space(c),
{
    let u = c as u32;
    (0x9 <= u && u <= 0xd) || u == 0x20 || u == 0x85 || u == 0xa0 || u == 0x1680 || (0x2000 <= u
        && u <= 0x200a) || u == 0x2028 || u == 0x2029 || u == 0x202f || u == 0x205f || u == 0x3000
}

/// `s` with its leading white space removed.
pub open spec fn trim_start_spec(s: Seq<char>) -> Seq<char>
    decreases s.len(),
{
    if s.len() > 0 && is_white_space(s[0]) {
        trim_start_spec(s.drop_first())
    } else {
        s
    }
}

/// `s` with its trailing white space removed.
pub open spec fn trim_end_spec(s: Seq<char>) -> Seq<char>
    decreases s.len(),
{
    if s.len() > 0 && is_white_space(s.last()) {
        trim_end_spec(s.drop_last())
    } else {
        s
    }
}

/// `s` with leading and trailing white space removed, as `str::trim` does.
pub open spec fn trimmed(s: Seq<char>) -> Seq<char> {
    trim_end_spec(trim_start_spec(s))
}

proof fn lemma_trim_start_skip(s: Seq<char>, k: int)
    requires
        0 <= k <= s.len(),
        forall|j: int| 0 <= j < k ==> is_white_space(s[j]),
    ensures
        trim_start_spec(s) == trim_start_spec(s.skip(k)),
    decreases k,
{
    if k > 0 {
        assert(s.skip(1) =~= s.drop_first());
        lemma_trim_start_skip(s.drop_first(), k - 1);
        assert(s.drop_first().skip(k - 1) =~= s.skip(k));
    } else {
        assert(s.skip(0) =~= s);
    }
}

proof fn lemma_trim_end_take(s: Seq<char>, k: int)
    requires
        0 <= k <= s.len(),
        forall|j: int| k <= j < s.len() ==> is_white_space(s[j]),
    ensures
        trim_end_spec(s) == trim_end_spec(s.take(k)),
    decreases s.len() - k,
{
    if k < s.len() {
        lemma_trim_end_take(s.drop_last(), k);
        assert(s.drop_last().take(k) =~= s.take(k));
    } else {
        assert(s.take(k) =~= s);
    }
}

/// `s` without leading and trailing white space.
pub fn trim(s: &str) -> (r: &str)
    ensures
        r@ == trimmed(s@),
{
    let v = chars_of(s);
    let n = v.len();
    let mut a: usize = 0;
    while a < n && white_space(v[a])
        invariant
            v@ == s@,
            n == v@.len(),
            a <= n,
            forall|j: int| 0 <= j < a ==> is_white_space(v@[j]),
        decreases n - a,
    {
        a = a + 1;
    }
    proof {
        lemma_trim_start_skip(s@, a as int);
    }
    let ghost rest = s@.skip(a as int);
    let mut b: usize = n;
    while b > a && white_space(v[b - 1])
        invariant
            v@ == s@,
            n == v@.len(),
            a <= b <= n,
            forall|j: int| b <= j < n ==> is_white_space(v@[j]),
        decreases b,
    {
        b = b - 1;
    }
    proof {
        lemma_trim_end_take(rest, b - a);
        assert(rest.take(b - a) =~= s@.subrange(a as int, b as int));
        let t = s@.subrange(a as int, b as int);
        if t.len() > 0 {
            assert(!is_white_space(t[0]));
            assert(!is_white_space(t.last()));
        }
        assert(trim_end_spec(t) == t);
    }
    s.substring_char(a, b)
}

/// The code of `c`, with an ASCII upper-case letter mapped to its lower case.
pub open spec fn ascii_lower(c: char) -> u32 {
    if 'A' <= c <= 'Z' {
        ((c as u32) + 32) as u32
    } else {
        c as u32
    }
}

/// `a` and `b` are equal when ASCII letters are compared without case.
pub open spec fn eq_ignore_ascii_case_spec(a: Seq<char>, b: Seq<char>) -> bool {
    a.len() == b.len() && forall|i: int| 0 <= i < a.len() ==> ascii_lower(a[i]) == ascii_lower(b[i])
}

fn lower_char(c: char) -> (r: u32)
    ensures
        r == ascii_lower(c),
{
    if 'A' <= c && c <= 'Z' {
        (c as u32) + 32
    } else {
        c as u32
    }
}

/// Whether `a` and `b` are equal when ASCII letters are compared without
/// case, as `str::eq_ignore_ascii_case` decides.
pub fn eq_ignore_ascii_case(a: &str, b: &str) -> (r: bool)
    ensures
        r == eq_ignore_ascii_case_spec(a@, b@),
{
    let av = chars_of(a);
    let bv = chars_of(b);
    if av.len() != bv.len() {
        return false;
    }
    let mut i: usize = 0;
    while i < av.len()
        invariant
            av@ == a@,
            bv@ == b@,
            av@.len() == bv@.len(),
            i <= av@.len(),
            forall|j: int| 0 <= j < i ==> ascii_lower(av@[j]) == ascii_lower(bv@[j]),
        decreases av@.len() - i,
    {
        if lower_char(av[i]) != lower_char(bv[i]) {
            return false;
        }
        i = i + 1;
    }
    true
}

/// `a` followed by `b`.
pub fn concat2(a: &str, b: &str) -> (r: String)
    ensures
        r@ == a@ + b@,
{
    let s = String::from_str(a);
    s.concat(b)
}

/// `a`, then `b`, then `c`.
pub fn concat3(a: &str, b: &str, c: &str) -> (r: String)
    ensures
        r@ == a@ + b@ + c@,
{
    let s = String::from_str(a);
    let s = s.concat(b);
    s.concat(c)
}

/// Every character of `s` is ASCII.
pub open spec fn is_ascii_text(s: Seq<char>) -> bool {
    forall|i: int| 0 <= i < s.len() ==> (s[i] as u32) < 128
}

/// `c` with an ASCII upper-case letter mapped to its lower case.
pub open spec fn ascii_lower_char(c: char) -> char {
    if 'A' <= c <= 'Z' {
        ((c as u32) + 32) as char
    } else {
        c
    }
}

/// `s` with every ASCII upper-case letter mapped to its lower case.
pub open spec fn ascii_lowered(s: Seq<char>) -> Seq<char> {
    Seq::new(s.len(), |i: int| ascii_lower_char(s[i]))
}

/// What `str::to_lowercase` returns for a string: the Unicode lower-case
/// mapping of every character, with the context rule for the final sigma.
pub uninterp spec fn spec_to_lowercase(s: Seq<char>) -> Seq<char>;

/// Calls `str::to_lowercase`. Claimed: the result is a function of the
/// argument's characters, and for ASCII text it is the text with `A`..`Z`
/// mapped to `a`..`z` (the Unicode lower-case mapping of ASCII, which changes
/// nothing else).
#[verifier::external_body]
pub(crate) fn to_lowercase(s: &str) -> (r: String)
    ensures
        r@ == spec_to_lowercase(s@),
        is_ascii_text(s@) ==> r@ == ascii_lowered(s@),
{
    s.to_lowercase()
}

/// The decimal digit character for `d`.
pub open spec fn digit_char(d: int) -> char {
    ((d + '0' as int) as u32) as char
}

/// The decimal representation of `n`, without leading zeros.
pub open spec fn decimal(n: nat) -> Seq<char>
    decreases n,
{
    if n < 10 {
        seq![digit_char(n as int)]
    } else {
        decimal(n / 10) + seq![digit_char((n % 10) as int)]
    }
}

fn digit_str(d: u64) -> (r: &'static str)
    requires
        d < 10,
    ensures
        r@ == seq![digit_char(d as int)],
{
    proof {
        reveal_strlit("0");
        reveal_strlit("1");
        reveal_strlit("2");
        reveal_strlit("3");
        reveal_strlit("4");
        reveal_strlit("5");
        reveal_strlit("6");
        reveal_strlit("7");
        reveal_strlit("8");
        reveal_strlit("9");
    }
    match d {
        0 => "0",
        1 => "1",
        2 => "2",
        3 => "3",
        4 => "4",
        5 => "5",
        6 => "6",
        7 => "7",
        8 => "8",
        _ => "9",
    }
}

/// The decimal representation of `n`, as `u64`'s `Display` writes it.
pub fn decimal_string(n: u64) -> (r: String)
    ensures
        r@ == decimal(n as nat),
    decreases n,
{
    if n < 10 {
        String::from_str(digit_str(n))
    } else {
        let head = decimal_string(n / 10);
        head.concat(digit_str(n % 10))
    }
}

/// `a` sorts strictly before `b` in lexicographic order of code points,
/// which is the order of `String`'s `Ord` (UTF-8 preserves it).
pub open spec fn lex_lt(a: Seq<char>, b: Seq<char>) -> bool
    decreases a.len(),
{
    if a.len() == 0 {
        b.len() > 0
    } else if b.len() == 0 {
        false
    } else if a[0] < b[0] {
        true
    } else if a[0] == b[0] {
        lex_lt(a.drop_first(), b.drop_first())
    } else {
        false
    }
}

pub proof fn lemma_lex_irreflexive(a: Seq<char>)
    ensures
        !lex_lt(a, a),
    decreases a.len(),
{
    if a.len() > 0 {
        lemma_lex_irreflexive(a.drop_first());
    }
}

pub proof fn lemma_lex_asymmetric(a: Seq<char>, b: Seq<char>)
    ensures
        lex_lt(a, b) ==> !lex_lt(b, a),
    decreases a.len(),
{
    if a.len() > 0 && b.len() > 0 && a[0] == b[0] {
        lemma_lex_asymmetric(a.drop_first(), b.drop_first());
    }
}

pub proof fn lemma_lex_total(a: Seq<char>, b: Seq<char>)
    ensures
        a != b ==> lex_lt(a, b) || lex_lt(b, a),
    decreases a.len(),
{
    if a.len() > 0 && b.len() > 0 {
        if a[0] == b[0] {
            lemma_lex_total(a.drop_first(), b.drop_first());
            if a.drop_first() == b.drop_first() {
                assert(a =~= seq![a[0]] + a.drop_first());
                assert(b =~= seq![b[0]] + b.drop_first());
            }
        }
    } else if a.len() == 0 && b.len() == 0 {
        assert(a =~= b);
    }
}

pub proof fn lemma_lex_transitive(a: Seq<char>, b: Seq<char>, c: Seq<char>)
    requires
        lex_lt(a, b),
        lex_lt(b, c),
    ensures
        lex_lt(a, c),
    decreases a.len(),
{
    if a.len() > 0 && b.len() > 0 && c.len() > 0 {
        if a[0] == b[0] && b[0] == c[0] {
            lemma_lex_transitive(a.drop_first(), b.drop_first(), c.drop_first());
        }
    }
}

proof fn lemma_lex_skip(a: Seq<char>, b: Seq<char>, i: int)
    requires
        0 <= i <= a.len(),
        i <= b.len(),
        a.take(i) == b.take(i),
    ensures
        lex_lt(a, b) == lex_lt(a.skip(i), b.skip(i)),
    decreases i,
{
    if i > 0 {
        assert(a[0] == a.take(i)[0]);
        assert(b[0] == b.take(i)[0]);
        assert(a.drop_first().take(i - 1) =~= a.take(i).drop_first());
        assert(b.drop_first().take(i - 1) =~= b.take(i).drop_first());
        lemma_lex_skip(a.drop_first(), b.drop_first(), i - 1);
        assert(a.drop_first().skip(i - 1) =~= a.skip(i));
        assert(b.drop_first().skip(i - 1) =~= b.skip(i));
    } else {
        assert(a.skip(0) =~= a);
        assert(b.skip(0) =~= b);
    }
}

/// Whether `a` sorts strictly before `b`.
pub fn str_lt(a: &str, b: &str) -> (r: bool)
    ensures
        r == lex_lt(a@, b@),
{
    let av = chars_of(a);
    let bv = chars_of(b);
    let mut i: usize = 0;
    while i < av.len() && i < bv.len() && av[i] == bv[i]
        invariant
            av@ == a@,
            bv@ == b@,
            i <= av@.len(),
            i <= bv@.len(),
            a@.take(i as int) =~= b@.take(i as int),
        decreases av@.len() - i,
    {
        proof {
            assert(a@.take(i + 1) =~= a@.take(i as int).push(a@[i as int]));
            assert(b@.take(i + 1) =~= b@.take(i as int).push(b@[i as int]));
        }
        i = i + 1;
    }
    proof {
        lemma_lex_skip(a@, b@, i as int);
    }
    if i == av.len() {
        i < bv.len()
    } else if i == bv.len() {
        false
    } else {
        av[i] < bv[i]
    }
}

pub proof fn lemma_leading_run_exists(s: Seq<char>, c: char)
    ensures
        is_leading_run(s, c, leading_run(s, c)),
    decreases s.len(),
{
    if s.len() == 0 {
        assert(is_leading_run(s, c, 0));
    } else if s[0] != c {
        assert(is_leading_run(s, c, 0));
    } else {
        let rest = s.drop_first();
        lemma_leading_run_exists(rest, c);
        let k = leading_run(rest, c);
        assert forall|i: int| 0 <= i < k + 1 implies s[i] == c by {
            if i > 0 {
                assert(s[i] == rest[i - 1]);
            }
        }
        if k + 1 < s.len() {
            assert(s[k + 1] == rest[k]);
        }
        assert(is_leading_run(s, c, k + 1));
    }
}

pub proof fn lemma_last_index_of_exists(s: Seq<char>, c: char)
    ensures
        is_last_index_of(s, c, last_index_of(s, c)),
    decreases s.len(),
{
    if s.len() == 0 {
        assert(is_last_index_of(s, c, -1));
    } else if s.last() == c {
        assert(is_last_index_of(s, c, s.len() - 1));
    } else {
        let init = s.drop_last();
        lemma_last_index_of_exists(init, c);
        let k = last_index_of(init, c);
        assert forall|i: int| k < i < s.len() implies s[i] != c by {
            if i < s.len() - 1 {
                assert(s[i] == init[i]);
            }
        }
        if k >= 0 {
            assert(s[k] == init[k]);
        }
        assert(is_last_index_of(s, c, k));
    }
}

pub proof fn lemma_first_index_of_exists(s: Seq<char>, c: char)
    ensures
        is_first_index_of(s, c, first_index_of(s, c)),
    decreases s.len(),
{
    if s.len() == 0 {
        assert(is_first_index_of(s, c, 0));
    } else if s[0] == c {
        assert(is_first_index_of(s, c, 0));
    } else {
        let rest = s.drop_first();
        lemma_first_index_of_exists(rest, c);
        let k = first_index_of(rest, c);
        assert forall|i: int| 0 <= i < k + 1 implies s[i] != c by {
            if i > 0 {
                assert(s[i] == rest[i - 1]);
            }
        }
        if k + 1 < s.len() {
            assert(s[k + 1] == rest[k]);
        }
        assert(is_first_index_of(s, c, k + 1));
    }
}

} // verus!
