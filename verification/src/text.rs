//! Character-level string helpers shared by the other modules, and the few
//! std string functions whose results are only named here.
use vstd::prelude::*;
use vstd::string::StringExecFns;

verus! {

broadcast use vstd::string::group_string_axioms;

/// The characters of each string.
pub open spec fn string_views(v: Seq<String>) -> Seq<Seq<char>> {
    v.map_values(|s: String| s@)
}

/// The characters of an optional string.
pub open spec fn opt_view(o: Option<String>) -> Option<Seq<char>> {
    match o {
        Some(s) => Some(s@),
        None => None,
    }
}

/// `needle` occurs in `hay` starting at position `i`.
pub open spec fn occurs_at(hay: Seq<char>, needle: Seq<char>, i: int) -> bool {
    0 <= i && i + needle.len() <= hay.len() && hay.subrange(i, i + needle.len()) == needle
}

/// `needle` occurs somewhere in `hay` (the empty needle occurs everywhere).
pub open spec fn has_substring(hay: Seq<char>, needle: Seq<char>) -> bool {
    exists|i: int| occurs_at(hay, needle, i)
}

/// `hay` begins with `prefix`.
pub open spec fn has_prefix(hay: Seq<char>, prefix: Seq<char>) -> bool {
    occurs_at(hay, prefix, 0)
}

/// What `str::to_lowercase` returns for a string with these characters.
pub uninterp spec fn lowercased(s: Seq<char>) -> Seq<char>;

/// Every character of `s` is ASCII.
pub open spec fn all_ascii(s: Seq<char>) -> bool {
    forall|i: int| 0 <= i < s.len() ==> (s[i] as u32) < 128
}

/// An ASCII capital letter made lowercase; any other character unchanged.
pub open spec fn ascii_lower(c: char) -> char {
    if 'A' <= c <= 'Z' {
        ((c as u32) + 32) as char
    } else {
        c
    }
}

/// A character with the Unicode `White_Space` property (as listed in the
/// Unicode Character Database, PropList.txt): the white space of
/// `char::is_whitespace` and `str::trim`.
pub open spec fn white_space(c: char) -> bool {
    let n = c as u32;
    ||| 0x9 <= n <= 0xd
    ||| n == 0x20
    ||| n == 0x85
    ||| n == 0xa0
    ||| n == 0x1680
    ||| 0x2000 <= n <= 0x200a
    ||| n == 0x2028
    ||| n == 0x2029
    ||| n == 0x202f
    ||| n == 0x205f
    ||| n == 0x3000
}

/// `s` without its leading white space.
pub open spec fn trim_start(s: Seq<char>) -> Seq<char>
    decreases s.len(),
{
    if s.len() > 0 && white_space(s[0]) {
        trim_start(s.drop_first())
    } else {
        s
    }
}

/// `s` without its trailing white space.
pub open spec fn trim_end(s: Seq<char>) -> Seq<char>
    decreases s.len(),
{
    if s.len() > 0 && white_space(s.last()) {
        trim_end(s.drop_last())
    } else {
        s
    }
}

/// `s` without its leading and trailing white space: what `str::trim`
/// returns.
pub open spec fn trimmed(s: Seq<char>) -> Seq<char> {
    trim_end(trim_start(s))
}

/// `s` has some character that is not white space.
pub open spec fn has_non_blank(s: Seq<char>) -> bool {
    exists|i: int| 0 <= i < s.len() && !white_space(s[i])
}

/// Dropping leading white space leaves nothing exactly when everything was
/// white space, and otherwise leaves a text that starts with a character
/// that is not.
proof fn lemma_trim_start(s: Seq<char>)
    ensures
        trim_start(s).len() == 0 <==> !has_non_blank(s),
        trim_start(s).len() > 0 ==> !white_space(trim_start(s)[0]),
    decreases s.len(),
{
    if s.len() > 0 && white_space(s[0]) {
        let t = s.drop_first();
        lemma_trim_start(t);
        if has_non_blank(s) {
            let i = choose|i: int| 0 <= i < s.len() && !white_space(s[i]);
            assert(t[i - 1] == s[i]);
        }
        if has_non_blank(t) {
            let i = choose|i: int| 0 <= i < t.len() && !white_space(t[i]);
            assert(s[i + 1] == t[i]);
        }
    } else if s.len() > 0 {
        assert(!white_space(s[0]));
    }
}

/// Dropping trailing white space from a text that starts with a character
/// that is not white space leaves that character.
proof fn lemma_trim_end_keeps(s: Seq<char>)
    requires
        s.len() > 0,
        !white_space(s[0]),
    ensures
        trim_end(s).len() > 0,
    decreases s.len(),
{
    if white_space(s.last()) {
        assert(s.len() > 1);
        lemma_trim_end_keeps(s.drop_last());
    }
}

/// Trimming leaves nothing exactly when the text is all white space.
pub proof fn lemma_trimmed_empty(s: Seq<char>)
    ensures
        trimmed(s).len() == 0 <==> !has_non_blank(s),
{
    lemma_trim_start(s);
    if trim_start(s).len() > 0 {
        lemma_trim_end_keeps(trim_start(s));
    } else {
        assert(trim_end(trim_start(s)) == trim_start(s));
    }
}

/// The characters of `s`, in order.
pub fn chars_of(s: &str) -> (v: Vec<char>)
    ensures
        v@ == s@,
{
    let mut v: Vec<char> = Vec::new();
    for c in it: s.chars()
        invariant
            v@ == it.seq().take(it.index() as int),
            it.seq() == s@,
    {
        v.push(c);
    }
    v
}

/// Whether `needle` occurs in `hay` at position `i`.
pub fn matches_at(hay: &Vec<char>, needle: &Vec<char>, i: usize) -> (b: bool)
    requires
        i + needle@.len() <= hay@.len(),
    ensures
        b == occurs_at(hay@, needle@, i as int),
{
    let n = needle.len();
    let hl = hay.len();
    let mut j: usize = 0;
    while j < n
        invariant
            n == needle@.len(),
            hl == hay@.len(),
            i + n <= hay@.len(),
            j <= n,
            forall|k: int| 0 <= k < j ==> hay@[i + k] == needle@[k],
        decreases n - j,
    {
        if hay[i + j] != needle[j] {
            assert(hay@.subrange(i as int, i + n)[j as int] != needle@[j as int]);
            return false;
        }
        j += 1;
    }
    assert(hay@.subrange(i as int, i + n) =~= needle@);
    true
}

/// Whether `needle` occurs anywhere in `hay`.
pub fn contains_chars(hay: &Vec<char>, needle: &Vec<char>) -> (b: bool)
    ensures
        b == has_substring(hay@, needle@),
{
    if needle.len() > hay.len() {
        return false;
    }
    let last = hay.len() - needle.len();
    let mut i: usize = 0;
    loop
        invariant
            last == hay@.len() - needle@.len(),
            i <= last,
            forall|j: int| 0 <= j < i ==> !occurs_at(hay@, needle@, j),
        decreases last - i,
    {
        if matches_at(hay, needle, i) {
            return true;
        }
        if i == last {
            return false;
        }
        i += 1;
    }
}

/// Whether `needle` occurs anywhere in `hay`.
pub fn str_contains(hay: &str, needle: &str) -> (b: bool)
    ensures
        b == has_substring(hay@, needle@),
{
    let h = chars_of(hay);
    let n = chars_of(needle);
    contains_chars(&h, &n)
}

/// Whether two character vectors are equal.
pub fn chars_eq(x: &Vec<char>, y: &Vec<char>) -> (r: bool)
    ensures
        r == (x@ == y@),
{
    if x.len() != y.len() {
        return false;
    }
    let r = matches_at(x, y, 0);
    assert(x@.subrange(0, y@.len() as int) =~= x@);
    r
}

/// Whether two strings hold the same characters.
pub fn str_eq(a: &str, b: &str) -> (r: bool)
    ensures
        r == (a@ == b@),
{
    let x = chars_of(a);
    let y = chars_of(b);
    chars_eq(&x, &y)
}

/// A new string holding the characters `v[lo..hi]`.
pub fn string_of_range(v: &Vec<char>, lo: usize, hi: usize) -> (r: String)
    requires
        lo <= hi <= v@.len(),
    ensures
        r@ == v@.subrange(lo as int, hi as int),
{
    let mut r = String::new();
    let mut i: usize = lo;
    while i < hi
        invariant
            lo <= i <= hi <= v@.len(),
            r@ == v@.subrange(lo as int, i as int),
        decreases hi - i,
    {
        push_char(&mut r, v[i]);
        assert(v@.subrange(lo as int, i + 1) =~= v@.subrange(lo as int, i as int).push(v@[i as int]));
        i += 1;
    }
    r
}

/// A new string holding the characters of `v`.
pub fn string_of(v: &Vec<char>) -> (r: String)
    ensures
        r@ == v@,
{
    let r = string_of_range(v, 0, v.len());
    assert(v@.subrange(0, v@.len() as int) =~= v@);
    r
}

/// The characters of `s` after `prefix`, when `s` begins with `prefix`.
pub fn strip_prefix(s: &Vec<char>, prefix: &str) -> (r: Option<String>)
    ensures
        r is Some <==> has_prefix(s@, prefix@),
        r matches Some(rest) ==> rest@ == s@.subrange(prefix@.len() as int, s@.len() as int),
{
    let p = chars_of(prefix);
    if p.len() > s.len() {
        return None;
    }
    if matches_at(s, &p, 0) {
        Some(string_of_range(s, p.len(), s.len()))
    } else {
        None
    }
}

/// The decimal digit for `d < 10`.
pub open spec fn digit_char(d: nat) -> char {
    if d == 0 {
        '0'
    } else if d == 1 {
        '1'
    } else if d == 2 {
        '2'
    } else if d == 3 {
        '3'
    } else if d == 4 {
        '4'
    } else if d == 5 {
        '5'
    } else if d == 6 {
        '6'
    } else if d == 7 {
        '7'
    } else if d == 8 {
        '8'
    } else {
        '9'
    }
}

/// `n` written in decimal, without leading zeros.
pub open spec fn decimal(n: nat) -> Seq<char>
    decreases n,
{
    if n < 10 {
        seq![digit_char(n)]
    } else {
        decimal(n / 10).push(digit_char(n % 10))
    }
}

fn digit(d: u64) -> (c: char)
    requires
        d < 10,
    ensures
        c == digit_char(d as nat),
{
    if d == 0 {
        '0'
    } else if d == 1 {
        '1'
    } else if d == 2 {
        '2'
    } else if d == 3 {
        '3'
    } else if d == 4 {
        '4'
    } else if d == 5 {
        '5'
    } else if d == 6 {
        '6'
    } else if d == 7 {
        '7'
    } else if d == 8 {
        '8'
    } else {
        '9'
    }
}

/// `n` written in decimal.
pub fn decimal_string(n: u64) -> (r: String)
    ensures
        r@ == decimal(n as nat),
{
    let mut tail: Vec<char> = Vec::new();
    let mut cur: u64 = n;
    while cur >= 10
        invariant
            decimal(n as nat) == decimal(cur as nat) + tail@,
        decreases cur,
    {
        let d = digit(cur % 10);
        let ghost old_tail = tail@;
        tail.insert(0, d);
        assert(tail@ =~= seq![d] + old_tail);
        assert(decimal(cur as nat) == decimal((cur / 10) as nat).push(d));
        assert(decimal((cur / 10) as nat).push(d) + old_tail =~= decimal((cur / 10) as nat) + tail@);
        cur = cur / 10;
    }
    let mut r = String::new();
    push_char(&mut r, digit(cur));
    let rest = string_of(&tail);
    r.append(rest.as_str());
    assert(decimal(cur as nat) =~= seq![digit_char(cur as nat)]);
    r
}

/// `base` starts with `\\?\`, the prefix of Windows verbatim paths, which
/// `Path::join` rebuilds from their components.
pub open spec fn verbatim(base: Seq<char>) -> bool {
    base.len() >= 4 && base[0] == '\\' && base[1] == '\\' && base[2] == '?' && base[3] == '\\'
}

/// `joined` is what joining the plain component `rel` to the path `base`
/// gives, as `PathBuf::push` documents it: `rel` alone after an empty
/// base; `base` and `rel` with nothing between after a base that ends in
/// `/`, a separator everywhere; otherwise the platform's separator (`/`, or
/// `\` on Windows) between them. After a final `\` (a separator only on
/// Windows) or `:` (a drive such as `C:` takes none on Windows) the forms of
/// both platforms are admitted.
pub open spec fn joined_path(base: Seq<char>, rel: Seq<char>, joined: Seq<char>) -> bool {
    if base.len() == 0 {
        joined == rel
    } else if base.last() == '/' {
        joined == base + rel
    } else if base.last() == '\\' || base.last() == ':' {
        joined == base + rel || joined == base + seq!['/'] + rel || joined == base + seq!['\\']
            + rel
    } else {
        joined == base + seq!['/'] + rel || joined == base + seq!['\\'] + rel
    }
}

/// `s` is a single plain path component on every platform: not empty, not
/// `.` or `..`, and free of `/`, `\\` and `:`.
pub open spec fn plain_component(s: Seq<char>) -> bool {
    &&& s.len() > 0
    &&& !(s.len() == 1 && s[0] == '.')
    &&& !(s.len() == 2 && s[0] == '.' && s[1] == '.')
    &&& forall|i: int| 0 <= i < s.len() ==> s[i] != '/' && s[i] != '\\' && s[i] != ':'
}

/// Calls `Path::join` (that is, `PathBuf::push` on a copy of `base`) and
/// shows the result as text. For a plain component `rel` (no separator, no
/// drive prefix, not `.` or `..`) and a base that is not a Windows verbatim
/// path, none of the documented replacing or normalizing cases of `push`
/// applies: the result is `base` and `rel` joined as `joined_path` states.
/// Which separator is put in depends on the platform and is left open
/// between `/` and `\`. Nothing is claimed for other `rel` or for
/// verbatim bases.
#[verifier::external_body]
pub(crate) fn join_path(base: &str, rel: &str) -> (r: String)
    ensures
        plain_component(rel@) && !verbatim(base@) ==> joined_path(base@, rel@, r@),
{
    std::path::Path::new(base).join(rel).display().to_string()
}

/// Calls `str::to_lowercase`: the Unicode lowercase mapping of every
/// character. Its whole result is named `lowercased`; of it only the ASCII
/// case is stated: an ASCII text has its letters `A` to `Z` made lowercase
/// and keeps every other character.
#[verifier::external_body]
pub(crate) fn to_lowercase(s: &str) -> (r: String)
    ensures
        r@ == lowercased(s@),
        all_ascii(s@) ==> r@ == s@.map_values(|c: char| ascii_lower(c)),
{
    s.to_lowercase()
}

/// Calls `str::trim`, which drops leading and trailing white space, white
/// space being the characters with the Unicode `White_Space` property (see
/// `white_space`).
#[verifier::external_body]
pub(crate) fn trim(s: &str) -> (r: String)
    ensures
        r@ == trimmed(s@),
{
    s.trim().to_string()
}

/// Calls `String::push`, which appends one character.
#[verifier::external_body]
pub(crate) fn push_char(s: &mut String, c: char)
    ensures
        final(s)@ == old(s)@.push(c),
{
    s.push(c)
}

} // verus!
