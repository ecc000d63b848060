//! Text handling the API relies on: comparing, splitting and trimming
//! strings, and reading booleans, over the characters of a string.
use vstd::prelude::*;

verus! {

/// Whether a character has the Unicode `White_Space` property (the
/// characters `char::is_whitespace` answers true for): tab, line feed,
/// vertical tab, form feed, carriage return, space, next line, no-break
/// space, ogham space mark, the spaces U+2000 to U+200A, line and
/// paragraph separators, narrow no-break space, medium mathematical space
/// and ideographic space.
pub open spec fn unicode_white_space(c: char) -> bool {
    let n = c as u32;
    ||| 0x09 <= n <= 0x0D
    ||| n == 0x20
    ||| n == 0x85
    ||| n == 0xA0
    ||| n == 0x1680
    ||| 0x2000 <= n <= 0x200A
    ||| n == 0x2028
    ||| n == 0x2029
    ||| n == 0x202F
    ||| n == 0x205F
    ||| n == 0x3000
}

/// The lowercase form of a string, as Unicode defines it.
pub uninterp spec fn unicode_lowercase(s: Seq<char>) -> Seq<char>;

/// The uppercase form of a string, as Unicode defines it.
pub uninterp spec fn unicode_uppercase(s: Seq<char>) -> Seq<char>;

/// `str::to_uppercase`: claims only that the result is the string's
/// uppercase form, named above (a function of the string alone).
#[verifier::external_body]
pub(crate) fn to_uppercase(s: &str) -> (r: String)
    ensures
        r@ == unicode_uppercase(s@),
{
    s.to_uppercase()
}

/// Whether a character has the Unicode `White_Space` property.
fn is_whitespace(c: char) -> (r: bool)
    ensures
        r == unicode_white_space(c),
{
    let n = c as u32;
    (0x09 <= n && n <= 0x0D) || n == 0x20 || n == 0x85 || n == 0xA0 || n == 0x1680 || (0x2000 <= n
        && n <= 0x200A) || n == 0x2028 || n == 0x2029 || n == 0x202F || n == 0x205F || n == 0x3000
}

/// `str::to_lowercase`: claims only that the result is the string's
/// lowercase form, named above (a function of the string alone).
#[verifier::external_body]
pub(crate) fn to_lowercase(s: &str) -> (r: String)
    ensures
        r@ == unicode_lowercase(s@),
{
    s.to_lowercase()
}

/// `String::from(char)`: claims the string holds exactly that character.
#[verifier::external_body]
pub(crate) fn char_string(c: char) -> (r: String)
    ensures
        r@ == seq![c],
{
    String::from(c)
}

/// The views of a list of strings.
pub open spec fn views(v: Seq<String>) -> Seq<Seq<char>> {
    v.map_values(|x: String| x@)
}

/// Two strings are equal, compared character by character.
pub fn str_eq(a: &str, b: &str) -> (r: bool)
    ensures
        r == (a@ == b@),
{
    let n = a.unicode_len();
    if n != b.unicode_len() {
        return false;
    }
    let mut i: usize = 0;
    while i < n
        invariant
            n == a@.len(),
            n == b@.len(),
            i <= n,
            forall|k: int| 0 <= k < i ==> a@[k] == b@[k],
        decreases n - i,
    {
        if a.get_char(i) != b.get_char(i) {
            return false;
        }
        i = i + 1;
    }
    proof {
        assert(a@ =~= b@);
    }
    true
}

/// `s` begins with `prefix`.
pub open spec fn has_prefix(s: Seq<char>, prefix: Seq<char>) -> bool {
    prefix.len() <= s.len() && s.subrange(0, prefix.len() as int) == prefix
}

/// Whether `s` begins with `prefix`.
pub fn starts_with(s: &str, prefix: &str) -> (r: bool)
    ensures
        r == has_prefix(s@, prefix@),
{
    let n = s.unicode_len();
    let m = prefix.unicode_len();
    if m > n {
        return false;
    }
    let mut i: usize = 0;
    while i < m
        invariant
            n == s@.len(),
            m == prefix@.len(),
            m <= n,
            i <= m,
            forall|k: int| 0 <= k < i ==> s@[k] == prefix@[k],
        decreases m - i,
    {
        if s.get_char(i) != prefix.get_char(i) {
            proof {
                assert(s@.subrange(0, m as int)[i as int] != prefix@[i as int]);
            }
            return false;
        }
        i = i + 1;
    }
    proof {
        assert(s@.subrange(0, m as int) =~= prefix@);
    }
    true
}

/// `sep` occurs in `s` at position `i`.
pub open spec fn matches_at(s: Seq<char>, sep: Seq<char>, i: int) -> bool {
    0 <= i && i + sep.len() <= s.len() && s.subrange(i, i + sep.len()) == sep
}

/// The first position at or after `from` where `sep` occurs in `s`, or -1.
pub open spec fn next_match(s: Seq<char>, sep: Seq<char>, from: int) -> int
    decreases s.len() - from,
{
    if from < 0 || from >= s.len() || from + sep.len() > s.len() {
        -1
    } else if matches_at(s, sep, from) {
        from
    } else {
        next_match(s, sep, from + 1)
    }
}

/// The next occurrence, when there is one, lies at or after `from` and
/// inside `s`.
pub proof fn lemma_next_match_range(s: Seq<char>, sep: Seq<char>, from: int)
    ensures
        next_match(s, sep, from) == -1 || (from <= next_match(s, sep, from) && next_match(
            s,
            sep,
            from,
        ) + sep.len() <= s.len() && matches_at(s, sep, next_match(s, sep, from))),
    decreases s.len() - from,
{
    if !(from < 0 || from >= s.len() || from + sep.len() > s.len()) && !matches_at(s, sep, from) {
        lemma_next_match_range(s, sep, from + 1);
    }
}

/// The pieces of `s` from `from` on, separated by the occurrences of `sep`,
/// found from left to right without overlap (the pieces `str::split` gives).
pub open spec fn split_from(s: Seq<char>, sep: Seq<char>, from: int) -> Seq<Seq<char>>
    decreases s.len() - from,
{
    if sep.len() == 0 || from < 0 || from > s.len() {
        Seq::empty()
    } else {
        let next = next_match(s, sep, from);
        if next < 0 {
            seq![s.subrange(from, s.len() as int)]
        } else {
            proof {
                lemma_next_match_range(s, sep, from);
            }
            seq![s.subrange(from, next)] + split_from(s, sep, next + sep.len())
        }
    }
}

/// The pieces of `s` separated by `sep`.
pub open spec fn split_seq(s: Seq<char>, sep: Seq<char>) -> Seq<Seq<char>> {
    split_from(s, sep, 0)
}

proof fn lemma_next_match_skip(s: Seq<char>, sep: Seq<char>, from: int, i: int)
    requires
        0 <= from <= i,
        forall|k: int| from <= k < i ==> !matches_at(s, sep, k),
    ensures
        next_match(s, sep, from) == next_match(s, sep, i),
    decreases i - from,
{
    if from < i {
        lemma_next_match_skip(s, sep, from + 1, i);
    }
}

/// Whether `sep` occurs in `s` at position `i`.
fn occurs_at(s: &str, sep: &str, i: usize, n: usize, m: usize) -> (r: bool)
    requires
        n == s@.len(),
        m == sep@.len(),
        i + m <= n,
    ensures
        r == matches_at(s@, sep@, i as int),
{
    let mut j: usize = 0;
    while j < m
        invariant
            n == s@.len(),
            m == sep@.len(),
            i + m <= n,
            j <= m,
            forall|k: int| 0 <= k < j ==> s@[i + k] == sep@[k],
        decreases m - j,
    {
        if s.get_char(i + j) != sep.get_char(j) {
            proof {
                assert(s@.subrange(i as int, i + m)[j as int] != sep@[j as int]);
            }
            return false;
        }
        j = j + 1;
    }
    proof {
        assert(s@.subrange(i as int, i + m) =~= sep@);
    }
    true
}

/// Split `s` at every occurrence of `sep`, as `str::split` does.
pub fn split(s: &str, sep: &str) -> (r: Vec<String>)
    requires
        sep@.len() > 0,
    ensures
        views(r@) == split_seq(s@, sep@),
{
    let n = s.unicode_len();
    let m = sep.unicode_len();
    let mut parts: Vec<String> = Vec::new();
    let mut start: usize = 0;
    let mut i: usize = 0;
    while m <= n - i
        invariant
            n == s@.len(),
            m == sep@.len(),
            m > 0,
            start <= i <= n,
            forall|k: int| start <= k < i ==> !matches_at(s@, sep@, k),
            views(parts@) + split_from(s@, sep@, start as int) == split_seq(s@, sep@),
        decreases n - i,
    {
        if occurs_at(s, sep, i, n, m) {
            proof {
                lemma_next_match_skip(s@, sep@, start as int, i as int);
                assert(next_match(s@, sep@, start as int) == i);
            }
            let piece = String::from_str(s.substring_char(start, i));
            let ghost before = parts@;
            parts.push(piece);
            proof {
                assert(views(parts@) =~= views(before).push(s@.subrange(start as int, i as int)));
                assert(views(parts@) + split_from(s@, sep@, (i + m) as int) =~= views(before)
                    + split_from(s@, sep@, start as int));
            }
            start = i + m;
            i = i + m;
        } else {
            i = i + 1;
        }
    }
    proof {
        lemma_next_match_skip(s@, sep@, start as int, i as int);
        assert(next_match(s@, sep@, start as int) == -1);
    }
    let piece = String::from_str(s.substring_char(start, n));
    let ghost before = parts@;
    parts.push(piece);
    proof {
        assert(views(parts@) =~= views(before).push(s@.subrange(start as int, n as int)));
        assert(views(parts@) =~= views(before) + split_from(s@, sep@, start as int));
    }
    parts
}

/// The number of whitespace characters `s` begins with.
pub open spec fn leading_ws(s: Seq<char>) -> int
    decreases s.len(),
{
    if s.len() == 0 {
        0
    } else if unicode_white_space(s[0]) {
        1 + leading_ws(s.drop_first())
    } else {
        0
    }
}

/// The number of whitespace characters `s` ends with.
pub open spec fn trailing_ws(s: Seq<char>) -> int
    decreases s.len(),
{
    if s.len() == 0 {
        0
    } else if unicode_white_space(s.last()) {
        1 + trailing_ws(s.drop_last())
    } else {
        0
    }
}

/// `s` without its leading and trailing whitespace (what `str::trim` gives).
pub open spec fn trimmed(s: Seq<char>) -> Seq<char> {
    if leading_ws(s) >= s.len() {
        Seq::empty()
    } else {
        s.subrange(leading_ws(s), s.len() - trailing_ws(s))
    }
}

proof fn lemma_leading_ws(s: Seq<char>, i: int)
    requires
        0 <= i <= s.len(),
        forall|k: int| 0 <= k < i ==> unicode_white_space(s[k]),
        i == s.len() || !unicode_white_space(s[i]),
    ensures
        leading_ws(s) == i,
    decreases i,
{
    if i > 0 {
        let t = s.drop_first();
        assert forall|k: int| 0 <= k < i - 1 implies unicode_white_space(t[k]) by {
            assert(t[k] == s[k + 1]);
        }
        if i < s.len() {
            assert(t[i - 1] == s[i]);
        }
        lemma_leading_ws(t, i - 1);
    }
}

proof fn lemma_trailing_ws(s: Seq<char>, j: int)
    requires
        0 <= j <= s.len(),
        forall|k: int| j <= k < s.len() ==> unicode_white_space(s[k]),
        j == 0 || !unicode_white_space(s[j - 1]),
    ensures
        trailing_ws(s) == s.len() - j,
    decreases s.len() - j,
{
    if j < s.len() {
        let t = s.drop_last();
        assert forall|k: int| j <= k < t.len() implies unicode_white_space(t[k]) by {
            assert(t[k] == s[k]);
        }
        if j > 0 {
            assert(t[j - 1] == s[j - 1]);
        }
        assert(s.last() == s[s.len() - 1]);
        lemma_trailing_ws(t, j);
    }
}

/// `s` without its leading and trailing whitespace.
pub fn trim(s: &str) -> (r: String)
    ensures
        r@ == trimmed(s@),
{
    let n = s.unicode_len();
    let mut i: usize = 0;
    while i < n && is_whitespace(s.get_char(i))
        invariant
            n == s@.len(),
            i <= n,
            forall|k: int| 0 <= k < i ==> unicode_white_space(s@[k]),
        decreases n - i,
    {
        i = i + 1;
    }
    proof {
        lemma_leading_ws(s@, i as int);
    }
    if i == n {
        return String::new();
    }
    let mut j: usize = n;
    while j > i && is_whitespace(s.get_char(j - 1))
        invariant
            n == s@.len(),
            i < n,
            !unicode_white_space(s@[i as int]),
            i <= j <= n,
            forall|k: int| j <= k < n ==> unicode_white_space(s@[k]),
        decreases j,
    {
        j = j - 1;
    }
    proof {
        lemma_trailing_ws(s@, j as int);
    }
    String::from_str(s.substring_char(i, j))
}

/// Every character of `s` is a lowercase ASCII letter, a digit, `_` or `-`.
pub open spec fn is_key_text(s: Seq<char>) -> bool {
    forall|i: int|
        0 <= i < s.len() ==> ('a' <= #[trigger] s[i] <= 'z') || ('0' <= s[i] <= '9') || s[i]
            == '_' || s[i] == '-'
}

/// Whether every character of `s` is a lowercase ASCII letter, a digit, `_`
/// or `-`.
pub fn key_text(s: &str) -> (r: bool)
    ensures
        r == is_key_text(s@),
{
    let n = s.unicode_len();
    let mut i: usize = 0;
    while i < n
        invariant
            n == s@.len(),
            i <= n,
            forall|k: int|
                0 <= k < i ==> ('a' <= #[trigger] s@[k] <= 'z') || ('0' <= s@[k] <= '9') || s@[k]
                    == '_' || s@[k] == '-',
        decreases n - i,
    {
        let c = s.get_char(i);
        if !(('a' <= c && c <= 'z') || ('0' <= c && c <= '9') || c == '_' || c == '-') {
            return false;
        }
        i = i + 1;
    }
    true
}

/// What `str::parse::<bool>` gives: `true` and `false` are read, anything
/// else is an error.
pub open spec fn parse_bool_spec(s: Seq<char>) -> Option<bool> {
    if s == "true"@ {
        Some(true)
    } else if s == "false"@ {
        Some(false)
    } else {
        None
    }
}

/// Read a boolean written `true` or `false`.
pub fn parse_bool(s: &str) -> (r: Option<bool>)
    ensures
        r == parse_bool_spec(s@),
{
    if str_eq(s, "true") {
        Some(true)
    } else if str_eq(s, "false") {
        Some(false)
    } else {
        None
    }
}

/// The view of an optional string.
pub open spec fn opt_view(o: Option<String>) -> Option<Seq<char>> {
    match o {
        Some(s) => Some(s@),
        None => None,
    }
}

/// `c` in lowercase if it is an ASCII capital letter.
pub open spec fn ascii_lower(c: char) -> char {
    if 'A' <= c <= 'Z' {
        ((c as u32) + 32) as char
    } else {
        c
    }
}

/// `a` and `b` are equal when ASCII letters are compared without case.
pub open spec fn eq_ignore_ascii_case_spec(a: Seq<char>, b: Seq<char>) -> bool {
    a.len() == b.len() && forall|i: int| 0 <= i < a.len() ==> ascii_lower(#[trigger] a[i]) == ascii_lower(b[i])
}

fn lower_ascii_char(c: char) -> (r: char)
    ensures
        r == ascii_lower(c),
{
    if 'A' <= c && c <= 'Z' {
        let u: u32 = c as u32;
        assert(u + 32 <= 0x7f);
        char_from_ascii(u + 32)
    } else {
        c
    }
}

/// The character with an ASCII code.
fn char_from_ascii(u: u32) -> (r: char)
    requires
        u <= 0x7f,
    ensures
        r == u as char,
{
    let b: u8 = u as u8;
    b as char
}

/// Whether `a` and `b` are equal when ASCII letters are compared without
/// case (`str::eq_ignore_ascii_case`).
pub fn eq_ignore_ascii_case(a: &str, b: &str) -> (r: bool)
    ensures
        r == eq_ignore_ascii_case_spec(a@, b@),
{
    let n = a.unicode_len();
    if n != b.unicode_len() {
        return false;
    }
    let mut i: usize = 0;
    while i < n
        invariant
            n == a@.len(),
            n == b@.len(),
            i <= n,
            forall|k: int| 0 <= k < i ==> ascii_lower(#[trigger] a@[k]) == ascii_lower(b@[k]),
        decreases n - i,
    {
        if lower_ascii_char(a.get_char(i)) != lower_ascii_char(b.get_char(i)) {
            return false;
        }
        i = i + 1;
    }
    true
}

/// `s` with its ASCII capital letters in lowercase
/// (`str::to_ascii_lowercase`).
pub fn ascii_lowercase(s: &str) -> (r: String)
    ensures
        r@ == s@.map_values(|c: char| ascii_lower(c)),
{
    let n = s.unicode_len();
    let mut r = String::new();
    let mut i: usize = 0;
    while i < n
        invariant
            n == s@.len(),
            i <= n,
            r@ =~= s@.take(i as int).map_values(|c: char| ascii_lower(c)),
        decreases n - i,
    {
        let c = lower_ascii_char(s.get_char(i));
        let piece = char_string(c);
        r.append(piece.as_str());
        proof {
            assert(s@.take(i + 1).map_values(|c: char| ascii_lower(c)) =~= s@.take(i as int).map_values(
                |c: char| ascii_lower(c),
            ).push(ascii_lower(s@[i as int])));
        }
        i = i + 1;
    }
    proof {
        assert(s@.take(n as int) =~= s@);
    }
    r
}

/// Splitting always gives at least one piece.
pub proof fn lemma_split_nonempty(s: Seq<char>, sep: Seq<char>)
    requires
        sep.len() > 0,
    ensures
        split_seq(s, sep).len() >= 1,
{
    lemma_next_match_range(s, sep, 0);
}

/// `a` comes before or equals `b` in the order of `String` (character by
/// character, by code point, a prefix first).
pub open spec fn text_le(a: Seq<char>, b: Seq<char>) -> bool
    decreases a.len(),
{
    if a.len() == 0 {
        true
    } else if b.len() == 0 {
        false
    } else if (a[0] as u32) < (b[0] as u32) {
        true
    } else if (a[0] as u32) > (b[0] as u32) {
        false
    } else {
        text_le(a.drop_first(), b.drop_first())
    }
}

/// The text order is total.
pub proof fn lemma_text_le_total(a: Seq<char>, b: Seq<char>)
    ensures
        text_le(a, b) || text_le(b, a),
    decreases a.len(),
{
    if a.len() > 0 && b.len() > 0 && (a[0] as u32) == (b[0] as u32) {
        lemma_text_le_total(a.drop_first(), b.drop_first());
    }
}

/// The text order is transitive.
pub proof fn lemma_text_le_transitive(a: Seq<char>, b: Seq<char>, c: Seq<char>)
    requires
        text_le(a, b),
        text_le(b, c),
    ensures
        text_le(a, c),
    decreases a.len(),
{
    if a.len() > 0 && b.len() > 0 && c.len() > 0 && (a[0] as u32) == (b[0] as u32) && (b[0] as u32)
        == (c[0] as u32) {
        lemma_text_le_transitive(a.drop_first(), b.drop_first(), c.drop_first());
    }
}

/// Whether `a` comes before or equals `b` in the order of `String`.
pub fn str_le(a: &str, b: &str) -> (r: bool)
    ensures
        r == text_le(a@, b@),
{
    let n = a.unicode_len();
    let m = b.unicode_len();
    let mut i: usize = 0;
    proof {
        assert(a@.skip(0) =~= a@);
        assert(b@.skip(0) =~= b@);
    }
    while i < n && i < m
        invariant
            n == a@.len(),
            m == b@.len(),
            i <= n,
            i <= m,
            text_le(a@, b@) == text_le(a@.skip(i as int), b@.skip(i as int)),
        decreases n - i,
    {
        let x = a.get_char(i);
        let y = b.get_char(i);
        proof {
            assert(a@.skip(i as int)[0] == x);
            assert(b@.skip(i as int)[0] == y);
            assert(a@.skip(i as int).drop_first() =~= a@.skip(i + 1));
            assert(b@.skip(i as int).drop_first() =~= b@.skip(i + 1));
        }
        if (x as u32) < (y as u32) {
            return true;
        }
        if (x as u32) > (y as u32) {
            return false;
        }
        i = i + 1;
    }
    proof {
        assert(a@.skip(i as int).len() == n - i);
        assert(b@.skip(i as int).len() == m - i);
    }
    i == n
}

/// The entries are in the order of their keys.
pub open spec fn sorted_by_key<V>(s: Seq<(String, V)>) -> bool {
    forall|i: int, j: int| 0 <= i < j < s.len() ==> text_le((#[trigger] s[i]).0@, (#[trigger] s[j]).0@)
}

/// The entries put in the order of their keys (as `sort_by` comparing the
/// keys does): the same entries, sorted.
pub fn sort_by_key<V>(items: Vec<(String, V)>) -> (r: Vec<(String, V)>)
    ensures
        sorted_by_key(r@),
        r@.to_multiset() == items@.to_multiset(),
{
    broadcast use vstd::seq_lib::group_to_multiset_ensures;

    let mut rest = items;
    let mut out: Vec<(String, V)> = Vec::new();
    let ghost all = rest@;
    while rest.len() > 0
        invariant
            sorted_by_key(out@),
            out@.to_multiset().add(rest@.to_multiset()) == all.to_multiset(),
        decreases rest@.len(),
    {
        let ghost before_rest = rest@;
        let x = rest.pop().unwrap();
        proof {
            assert(before_rest =~= rest@.push(x));
            vstd::seq_lib::to_multiset_build(rest@, x);
        }
        let mut p: usize = 0;
        while p < out.len() && str_le(out[p].0.as_str(), x.0.as_str())
            invariant
                p <= out@.len(),
                forall|k: int| 0 <= k < p ==> text_le((#[trigger] out@[k]).0@, x.0@),
            decreases out@.len() - p,
        {
            p = p + 1;
        }
        let ghost before_out = out@;
        proof {
            if p < out@.len() {
                lemma_text_le_total(out@[p as int].0@, x.0@);
            }
        }
        out.insert(p, x);
        proof {
            assert forall|i: int, j: int| 0 <= i < j < out@.len() implies text_le(
                (#[trigger] out@[i]).0@,
                (#[trigger] out@[j]).0@,
            ) by {
                if j < p {
                    assert(out@[i] == before_out[i] && out@[j] == before_out[j]);
                } else if j == p {
                    assert(out@[i] == before_out[i]);
                } else if i < p {
                    assert(out@[i] == before_out[i] && out@[j] == before_out[j - 1]);
                    assert(i < j - 1);
                } else if i == p {
                    assert(out@[j] == before_out[j - 1]);
                    if j - 1 > p {
                        lemma_text_le_transitive(x.0@, before_out[p as int].0@, before_out[j - 1].0@);
                    }
                } else {
                    assert(out@[i] == before_out[i - 1] && out@[j] == before_out[j - 1]);
                }
            }
            vstd::seq_lib::to_multiset_insert(before_out, p as int, x);
            assert(out@.to_multiset().add(rest@.to_multiset()) =~= before_out.to_multiset().add(
                rest@.to_multiset().insert(x),
            ));
        }
    }
    proof {
        assert(rest@ =~= Seq::<(String, V)>::empty());
        assert(rest@.to_multiset() =~= vstd::multiset::Multiset::empty());
        assert(out@.to_multiset().add(vstd::multiset::Multiset::empty()) =~= out@.to_multiset());
    }
    out
}

} // verus!
