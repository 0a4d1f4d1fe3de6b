//! Name rules of the package model: identifiers, dotted groups, semantic
//! versions, `group:name:version` coordinates, dependency aliases,
//! repository ids and repository base URLs.
use vstd::prelude::*;

use crate::text::{
    ascii_digit, ascii_letter, chars_of, find_char, first_index, has_char, is_ascii_digit,
    is_ascii_letter, lemma_first_index, matches_at, occurs_at, push_char, range_holds, segments,
    split_ranges, string_of,
};

verus! {

/// Classes of characters that the rules below allow.
#[derive(Clone, Copy, Debug, PartialEq, Eq)]
pub enum CharClass {
    /// `0-9`.
    Digit,
    /// `A-Za-z0-9_`.
    Identifier,
    /// `A-Za-z0-9-`.
    SemverIdentifier,
}

pub open spec fn in_class(k: CharClass, c: char) -> bool {
    match k {
        CharClass::Digit => is_ascii_digit(c),
        CharClass::Identifier => is_ascii_letter(c) || is_ascii_digit(c) || c == '_',
        CharClass::SemverIdentifier => is_ascii_letter(c) || is_ascii_digit(c) || c == '-',
    }
}

fn char_in_class(k: CharClass, c: char) -> (r: bool)
    ensures
        r == in_class(k, c),
{
    match k {
        CharClass::Digit => ascii_digit(c),
        CharClass::Identifier => ascii_letter(c) || ascii_digit(c) || c == '_',
        CharClass::SemverIdentifier => ascii_letter(c) || ascii_digit(c) || c == '-',
    }
}

/// Every character of `s` is in class `k`.
pub open spec fn all_class(s: Seq<char>, k: CharClass) -> bool {
    forall|j: int| 0 <= j < s.len() ==> in_class(k, #[trigger] s[j])
}

/// Whether every character of `chars[from..to]` is in class `k`.
fn range_all_class(chars: &Vec<char>, from: usize, to: usize, k: CharClass) -> (r: bool)
    requires
        from <= to <= chars.len(),
    ensures
        r == all_class(chars@.subrange(from as int, to as int), k),
{
    let ghost sub = chars@.subrange(from as int, to as int);
    let mut i = from;
    while i < to
        invariant
            from <= i <= to <= chars.len(),
            sub == chars@.subrange(from as int, to as int),
            forall|j: int| 0 <= j < i - from ==> in_class(k, #[trigger] sub[j]),
        decreases to - i,
    {
        if !char_in_class(k, chars[i]) {
            assert(sub[i - from] == chars@[i as int]);
            return false;
        }
        assert(sub[i - from] == chars@[i as int]);
        i = i + 1;
    }
    true
}

/// `s` split at `sep` has no empty piece and every piece is in class `k`.
pub open spec fn pieces_ok(s: Seq<char>, sep: char, k: CharClass) -> bool {
    forall|i: int|
        0 <= i < segments(s, sep).len() ==> (#[trigger] segments(s, sep)[i]).len() > 0 && all_class(
            segments(s, sep)[i],
            k,
        )
}

/// Whether `chars` split at `sep` has no empty piece and only class `k`.
fn chars_pieces_ok(chars: &Vec<char>, sep: char, k: CharClass) -> (r: bool)
    ensures
        r == pieces_ok(chars@, sep, k),
{
    let ranges = split_ranges(chars, sep);
    let ghost segs = segments(chars@, sep);
    let mut i: usize = 0;
    while i < ranges.len()
        invariant
            segs == segments(chars@, sep),
            ranges@.len() == segs.len(),
            forall|j: int| 0 <= j < ranges@.len() ==> #[trigger] range_holds(chars@, ranges@[j], segs[j]),
            i <= ranges.len(),
            forall|j: int| 0 <= j < i ==> (#[trigger] segs[j]).len() > 0 && all_class(segs[j], k),
        decreases ranges.len() - i,
    {
        let (from, to) = ranges[i];
        assert(range_holds(chars@, ranges@[i as int], segs[i as int]));
        if from == to || !range_all_class(chars, from, to, k) {
            return false;
        }
        i = i + 1;
    }
    true
}

/// May start an identifier: an ASCII letter or `_`.
pub open spec fn is_identifier_start(c: char) -> bool {
    is_ascii_letter(c) || c == '_'
}

/// A non-empty identifier: `[A-Za-z_][A-Za-z0-9_]*`.
pub open spec fn is_identifier(s: Seq<char>) -> bool {
    s.len() > 0 && is_identifier_start(s[0]) && all_class(s, CharClass::Identifier)
}

fn chars_identifier(chars: &Vec<char>) -> (r: bool)
    ensures
        r == is_identifier(chars@),
{
    chars.len() > 0 && (ascii_letter(chars[0]) || chars[0] == '_') && range_all_class(
        chars,
        0,
        chars.len(),
        CharClass::Identifier,
    ) && {
        assert(chars@.subrange(0, chars@.len() as int) =~= chars@);
        true
    }
}

/// Whether `s` is a non-empty identifier.
pub fn is_identifier_text(s: &str) -> (r: bool)
    ensures
        r == is_identifier(s@),
{
    let chars = chars_of(s);
    chars_identifier(&chars)
}

/// Dot-separated identifier characters with no empty piece (a group).
pub open spec fn is_dotted_name(s: Seq<char>) -> bool {
    pieces_ok(s, '.', CharClass::Identifier)
}

/// Whether `s` is a dotted group name.
pub fn is_dotted_name_text(s: &str) -> (r: bool)
    ensures
        r == is_dotted_name(s@),
{
    let chars = chars_of(s);
    chars_pieces_ok(&chars, '.', CharClass::Identifier)
}

/// `s` cut at its first `c`: the part before and, if there is one, the part
/// after (`str::split_once`).
pub open spec fn split_at_first(s: Seq<char>, c: char) -> (Seq<char>, Option<Seq<char>>) {
    match first_index(s, c) {
        Some(i) => (s.take(i), Some(s.skip(i + 1))),
        None => (s, None),
    }
}

/// `major.minor.patch`: exactly three non-empty runs of digits.
pub open spec fn is_semver_core(core: Seq<char>) -> bool {
    segments(core, '.').len() == 3 && pieces_ok(core, '.', CharClass::Digit)
}

/// A semantic version: `major.minor.patch`, then optionally `-` and a
/// pre-release, then optionally `+` and build metadata; the pre-release and
/// the build metadata are dot-separated non-empty runs of `[0-9A-Za-z-]`.
pub open spec fn is_semver(v: Seq<char>) -> bool {
    let (without_build, build) = split_at_first(v, '+');
    let (core, pre) = split_at_first(without_build, '-');
    &&& !(build matches Some(b) && has_char(b, '+'))
    &&& is_semver_core(core)
    &&& (pre matches Some(p) ==> pieces_ok(p, '.', CharClass::SemverIdentifier))
    &&& (build matches Some(b) ==> pieces_ok(b, '.', CharClass::SemverIdentifier))
}

/// The characters `chars[from..to]` as a new vector.
pub fn sub_chars(chars: &Vec<char>, from: usize, to: usize) -> (v: Vec<char>)
    requires
        from <= to <= chars.len(),
    ensures
        v@ == chars@.subrange(from as int, to as int),
{
    let mut v: Vec<char> = Vec::new();
    let mut i = from;
    while i < to
        invariant
            from <= i <= to <= chars.len(),
            v@ == chars@.subrange(from as int, i as int),
        decreases to - i,
    {
        v.push(chars[i]);
        i = i + 1;
        assert(v@ =~= chars@.subrange(from as int, i as int));
    }
    v
}

/// `chars` cut at its first `c`.
fn split_chars_at_first(chars: &Vec<char>, c: char) -> (r: (Vec<char>, Option<Vec<char>>))
    ensures
        r.0@ == split_at_first(chars@, c).0,
        r.1 is Some <==> split_at_first(chars@, c).1 is Some,
        r.1 matches Some(after) ==> split_at_first(chars@, c).1 == Some(after@),
{
    proof {
        lemma_first_index(chars@, c);
    }
    match find_char(chars, c) {
        Some(i) => {
            let before = sub_chars(chars, 0, i);
            let after = sub_chars(chars, i + 1, chars.len());
            assert(before@ =~= chars@.take(i as int));
            assert(after@ =~= chars@.skip(i + 1));
            (before, Some(after))
        },
        None => {
            let all = sub_chars(chars, 0, chars.len());
            assert(all@ =~= chars@);
            (all, None)
        },
    }
}

fn chars_has(chars: &Vec<char>, c: char) -> (r: bool)
    ensures
        r == has_char(chars@, c),
{
    proof {
        lemma_first_index(chars@, c);
    }
    match find_char(chars, c) {
        Some(i) => true,
        None => false,
    }
}

fn chars_semver(chars: &Vec<char>) -> (r: bool)
    ensures
        r == is_semver(chars@),
{
    let (without_build, build) = split_chars_at_first(chars, '+');
    if let Some(b) = &build {
        if chars_has(b, '+') {
            return false;
        }
    }
    let (core, pre) = split_chars_at_first(&without_build, '-');
    let ranges = split_ranges(&core, '.');
    if ranges.len() != 3 || !chars_pieces_ok(&core, '.', CharClass::Digit) {
        return false;
    }
    if let Some(p) = &pre {
        if !chars_pieces_ok(p, '.', CharClass::SemverIdentifier) {
            return false;
        }
    }
    if let Some(b) = &build {
        if !chars_pieces_ok(b, '.', CharClass::SemverIdentifier) {
            return false;
        }
    }
    true
}

/// Whether `value` is a semantic version.
pub fn is_semver_text(value: &str) -> (r: bool)
    ensures
        r == is_semver(value@),
{
    let chars = chars_of(value);
    chars_semver(&chars)
}

/// What is wrong with a coordinate.
#[derive(Clone, Copy, Debug, PartialEq, Eq)]
pub enum CoordinateFault {
    /// Not exactly three `:`-separated parts.
    Shape,
    /// The group is not dot-separated identifiers.
    Group,
    /// The name is not an identifier.
    Name,
    /// The version is not an exact semantic version without build metadata.
    Version,
}

/// The first rule that `c` breaks as a `group:name:version` coordinate.
pub open spec fn coordinate_fault(c: Seq<char>) -> Option<CoordinateFault> {
    let parts = segments(c, ':');
    if parts.len() != 3 {
        Some(CoordinateFault::Shape)
    } else if !is_dotted_name(parts[0]) {
        Some(CoordinateFault::Group)
    } else if !is_identifier(parts[1]) {
        Some(CoordinateFault::Name)
    } else if !is_semver(parts[2]) || has_char(parts[2], '+') {
        Some(CoordinateFault::Version)
    } else {
        None
    }
}

/// Splits `coordinate` into group, name and version, or names the first rule
/// it breaks.
pub fn coordinate_parts(coordinate: &str) -> (r: Result<(String, String, String), CoordinateFault>)
    ensures
        r is Ok <==> coordinate_fault(coordinate@) is None,
        r matches Ok(parts) ==> parts.0@ == segments(coordinate@, ':')[0] && parts.1@ == segments(
            coordinate@,
            ':',
        )[1] && parts.2@ == segments(coordinate@, ':')[2],
        r matches Err(f) ==> coordinate_fault(coordinate@) == Some(f),
{
    let chars = chars_of(coordinate);
    let ranges = split_ranges(&chars, ':');
    let ghost parts = segments(chars@, ':');
    if ranges.len() != 3 {
        return Err(CoordinateFault::Shape);
    }
    assert(range_holds(chars@, ranges@[0], parts[0]));
    assert(range_holds(chars@, ranges@[1], parts[1]));
    assert(range_holds(chars@, ranges@[2], parts[2]));
    let group = sub_chars(&chars, ranges[0].0, ranges[0].1);
    let name = sub_chars(&chars, ranges[1].0, ranges[1].1);
    let version = sub_chars(&chars, ranges[2].0, ranges[2].1);
    if !chars_pieces_ok(&group, '.', CharClass::Identifier) {
        return Err(CoordinateFault::Group);
    }
    if !chars_identifier(&name) {
        return Err(CoordinateFault::Name);
    }
    if !chars_semver(&version) || chars_has(&version, '+') {
        return Err(CoordinateFault::Version);
    }
    let g = string_of(&group, 0, group.len());
    let n = string_of(&name, 0, name.len());
    let v = string_of(&version, 0, version.len());
    assert(group@.subrange(0, group@.len() as int) =~= group@);
    assert(name@.subrange(0, name@.len() as int) =~= name@);
    assert(version@.subrange(0, version@.len() as int) =~= version@);
    Ok((g, n, v))
}

/// A dependency alias: an identifier other than the reserved `std`.
pub open spec fn is_valid_alias_spec(alias: Seq<char>) -> bool {
    alias != seq!['s', 't', 'd'] && is_identifier(alias)
}

/// Whether `alias` may name a dependency.
pub fn is_valid_alias(alias: &str) -> (r: bool)
    ensures
        r == is_valid_alias_spec(alias@),
{
    let chars = chars_of(alias);
    let is_std = chars.len() == 3 && chars[0] == 's' && chars[1] == 't' && chars[2] == 'd';
    proof {
        if chars@ == seq!['s', 't', 'd'] {
            assert(chars@[0] == 's' && chars@[1] == 't' && chars@[2] == 'd');
        }
        if is_std {
            assert(chars@ =~= seq!['s', 't', 'd']);
        }
    }
    !is_std && chars_identifier(&chars)
}

/// A repository id: ASCII letters, digits and `_`, starting with a letter.
pub open spec fn is_valid_repository_id_spec(id: Seq<char>) -> bool {
    id.len() > 0 && is_ascii_letter(id[0]) && all_class(id, CharClass::Identifier)
}

/// Whether `id` may name a repository.
pub fn is_valid_repository_id(id: &str) -> (r: bool)
    ensures
        r == is_valid_repository_id_spec(id@),
{
    let chars = chars_of(id);
    let r = chars.len() > 0 && ascii_letter(chars[0]) && range_all_class(
        &chars,
        0,
        chars.len(),
        CharClass::Identifier,
    );
    assert(chars@.subrange(0, chars@.len() as int) =~= chars@);
    r
}

/// `c` with ASCII upper-case letters made lower-case.
pub open spec fn ascii_lower(c: char) -> char {
    if 'A' <= c && c <= 'Z' {
        ((c as u32) + 32) as char
    } else {
        c
    }
}

/// `s` with ASCII upper-case letters made lower-case.
pub open spec fn ascii_lowercase(s: Seq<char>) -> Seq<char> {
    s.map_values(|c: char| ascii_lower(c))
}

fn lower_char(c: char) -> (r: char)
    ensures
        r == ascii_lower(c),
{
    if 'A' <= c && c <= 'Z' {
        let code = ((c as u32) + 32) as u8;
        code as char
    } else {
        c
    }
}

/// `s` with ASCII letters lower-cased (`str::to_ascii_lowercase`).
pub fn to_ascii_lowercase(s: &str) -> (r: String)
    ensures
        r@ == ascii_lowercase(s@),
{
    let chars = chars_of(s);
    let mut out = String::new();
    let mut i: usize = 0;
    while i < chars.len()
        invariant
            i <= chars.len(),
            chars@ == s@,
            out@ == ascii_lowercase(chars@.take(i as int)),
        decreases chars.len() - i,
    {
        push_char(&mut out, lower_char(chars[i]));
        i = i + 1;
        assert(out@ =~= ascii_lowercase(chars@.take(i as int)));
    }
    assert(chars@.take(chars@.len() as int) =~= chars@);
    out
}

/// `s` without trailing `c` characters (`str::trim_end_matches`).
pub open spec fn trim_end(s: Seq<char>, c: char) -> Seq<char>
    decreases s.len(),
{
    if s.len() > 0 && s.last() == c {
        trim_end(s.drop_last(), c)
    } else {
        s
    }
}

/// Position of the first occurrence of `needle` in `s` at or after `from`.
pub open spec fn find_from(s: Seq<char>, needle: Seq<char>, from: int) -> Option<int>
    decreases s.len() + 1 - from,
{
    if from < 0 || from + needle.len() > s.len() {
        None
    } else if occurs_at(s, needle, from) {
        Some(from)
    } else {
        find_from(s, needle, from + 1)
    }
}

/// What is wrong with a repository base URL.
#[derive(Clone, Copy, Debug, PartialEq, Eq)]
pub enum UrlFault {
    /// Nothing is left once trailing `/` are removed.
    Empty,
    /// No `://` separates a scheme.
    NoScheme,
    /// The scheme is not `http`, `https` or `file`.
    UnsupportedScheme,
    /// Nothing follows `://`.
    MissingHost,
    /// A `?` or `#` follows `://`.
    QueryOrFragment,
    /// The authority (up to the first `/`) holds an `@`.
    Credentials,
}

pub open spec fn is_allowed_scheme(s: Seq<char>) -> bool {
    s == seq!['h', 't', 't', 'p'] || s == seq!['h', 't', 't', 'p', 's'] || s == seq!['f', 'i', 'l', 'e']
}

/// The scheme of a trimmed base URL: the text before the first `://`.
pub open spec fn url_scheme(base: Seq<char>) -> Seq<char> {
    base.take(find_from(base, seq![':', '/', '/'], 0)->0)
}

/// What follows the first `://` of a trimmed base URL.
pub open spec fn url_rest(base: Seq<char>) -> Seq<char> {
    base.skip(find_from(base, seq![':', '/', '/'], 0)->0 + 3)
}

/// The first rule a repository URL breaks, checked on the URL without its
/// trailing `/`.
pub open spec fn url_fault(url: Seq<char>) -> Option<UrlFault> {
    let base = trim_end(url, '/');
    if base.len() == 0 {
        Some(UrlFault::Empty)
    } else if find_from(base, seq![':', '/', '/'], 0) is None {
        Some(UrlFault::NoScheme)
    } else if !is_allowed_scheme(url_scheme(base)) {
        Some(UrlFault::UnsupportedScheme)
    } else if url_rest(base).len() == 0 {
        Some(UrlFault::MissingHost)
    } else if has_char(url_rest(base), '?') || has_char(url_rest(base), '#') {
        Some(UrlFault::QueryOrFragment)
    } else if has_char(segments(url_rest(base), '/')[0], '@') {
        Some(UrlFault::Credentials)
    } else {
        None
    }
}

pub fn trimmed_len(chars: &Vec<char>, c: char) -> (n: usize)
    ensures
        n <= chars.len(),
        chars@.take(n as int) == trim_end(chars@, c),
{
    let mut n = chars.len();
    assert(chars@.take(n as int) =~= chars@);
    while n > 0 && chars[n - 1] == c
        invariant
            n <= chars.len(),
            trim_end(chars@.take(n as int), c) == trim_end(chars@, c),
        decreases n,
    {
        assert(chars@.take(n as int).drop_last() =~= chars@.take(n - 1));
        n = n - 1;
    }
    n
}

fn find_needle(chars: &Vec<char>, needle: &Vec<char>) -> (r: Option<usize>)
    ensures
        r matches Some(i) ==> find_from(chars@, needle@, 0) == Some(i as int),
        r is None ==> find_from(chars@, needle@, 0) is None,
{
    let mut at: usize = 0;
    while at < chars.len()
        invariant
            at <= chars.len(),
            find_from(chars@, needle@, 0) == find_from(chars@, needle@, at as int),
        decreases chars.len() - at,
    {
        if needle.len() <= chars.len() - at {
            if matches_at(chars, needle, at) {
                return Some(at);
            }
        } else {
            return None;
        }
        at = at + 1;
    }
    if needle.len() == 0 {
        assert(chars@.subrange(at as int, at as int) =~= needle@);
        assert(occurs_at(chars@, needle@, at as int));
        return Some(at);
    }
    None
}

fn scheme_allowed(s: &Vec<char>) -> (r: bool)
    ensures
        r == is_allowed_scheme(s@),
{
    let http = vec!['h', 't', 't', 'p'];
    let https = vec!['h', 't', 't', 'p', 's'];
    let file = vec!['f', 'i', 'l', 'e'];
    assert(http@ =~= seq!['h', 't', 't', 'p']);
    assert(https@ =~= seq!['h', 't', 't', 'p', 's']);
    assert(file@ =~= seq!['f', 'i', 'l', 'e']);
    same_chars(s, &http) || same_chars(s, &https) || same_chars(s, &file)
}

fn same_chars(a: &Vec<char>, b: &Vec<char>) -> (r: bool)
    ensures
        r == (a@ == b@),
{
    if a.len() != b.len() {
        return false;
    }
    let r = matches_at(a, b, 0);
    proof {
        assert(a@.subrange(0, b@.len() as int) =~= a@);
    }
    r
}

/// Checks a repository base URL and gives it without trailing `/`.
pub fn repository_base(url: &str) -> (r: Result<String, UrlFault>)
    ensures
        r is Ok <==> url_fault(url@) is None,
        r matches Ok(base) ==> base@ == trim_end(url@, '/'),
        r matches Err(f) ==> url_fault(url@) == Some(f),
{
    let chars = chars_of(url);
    let n = trimmed_len(&chars, '/');
    let base = sub_chars(&chars, 0, n);
    assert(base@ =~= trim_end(url@, '/'));
    if n == 0 {
        return Err(UrlFault::Empty);
    }
    let sep = vec![':', '/', '/'];
    assert(sep@ =~= seq![':', '/', '/']);
    let at = match find_needle(&base, &sep) {
        Some(at) => at,
        None => {
            return Err(UrlFault::NoScheme);
        },
    };
    let ghost found = find_from(base@, sep@, 0);
    proof {
        lemma_find_from(base@, sep@, 0);
    }
    let scheme = sub_chars(&base, 0, at);
    let rest = sub_chars(&base, at + 3, n);
    assert(scheme@ =~= url_scheme(base@));
    assert(rest@ =~= url_rest(base@));
    if !scheme_allowed(&scheme) {
        return Err(UrlFault::UnsupportedScheme);
    }
    if rest.len() == 0 {
        return Err(UrlFault::MissingHost);
    }
    if chars_has(&rest, '?') || chars_has(&rest, '#') {
        return Err(UrlFault::QueryOrFragment);
    }
    let pieces = split_ranges(&rest, '/');
    proof {
        crate::text::lemma_segments_nonempty(rest@, '/');
    }
    let (from, to) = pieces[0];
    assert(range_holds(rest@, pieces@[0], segments(rest@, '/')[0]));
    let authority = sub_chars(&rest, from, to);
    if chars_has(&authority, '@') {
        return Err(UrlFault::Credentials);
    }
    Ok(string_of(&base, 0, n))
}

proof fn lemma_find_from(s: Seq<char>, needle: Seq<char>, from: int)
    requires
        0 <= from,
    ensures
        find_from(s, needle, from) matches Some(i) ==> from <= i && i + needle.len() <= s.len()
            && occurs_at(s, needle, i),
    decreases s.len() + 1 - from,
{
    if from + needle.len() <= s.len() && !occurs_at(s, needle, from) {
        lemma_find_from(s, needle, from + 1);
    }
}

proof fn lemma_scheme_found(url: Seq<char>, scheme: Seq<char>, rest: Seq<char>, from: int)
    requires
        url == scheme + "://"@ + rest,
        !has_char(scheme, ':'),
        0 <= from <= scheme.len(),
    ensures
        find_from(url, seq![':', '/', '/'], from) == Some(scheme.len() as int),
    decreases scheme.len() - from,
{
    reveal_strlit("://");
    let needle = seq![':', '/', '/'];
    if from < scheme.len() {
        assert(url[from] == scheme[from]);
        assert(scheme[from] != ':');
        if occurs_at(url, needle, from) {
            assert(url.subrange(from, from + 3)[0] == url[from]);
        }
        lemma_scheme_found(url, scheme, rest, from + 1);
    } else {
        assert(url.subrange(from, from + 3) =~= needle);
    }
}

/// Which schemes a repository may use: a URL `scheme://rest`, where the
/// scheme holds no `:` and the rest is non-empty, does not end in `/` and
/// holds no `?`, `#` or `@`, is accepted exactly when the scheme is `http`,
/// `https` or `file`, and refused for its scheme otherwise.
pub proof fn only_http_https_and_file_repositories(scheme: Seq<char>, rest: Seq<char>)
    requires
        !has_char(scheme, ':'),
        rest.len() > 0,
        rest.last() != '/',
        !has_char(rest, '?'),
        !has_char(rest, '#'),
        !has_char(rest, '@'),
    ensures
        url_fault(scheme + "://"@ + rest) is None <==> (scheme == "http"@ || scheme == "https"@ || scheme
            == "file"@),
        !(scheme == "http"@ || scheme == "https"@ || scheme == "file"@) ==> url_fault(scheme + "://"@ + rest)
            == Some(UrlFault::UnsupportedScheme),
{
    reveal_strlit("://");
    reveal_strlit("http");
    reveal_strlit("https");
    reveal_strlit("file");
    let url = scheme + "://"@ + rest;
    assert(url.last() == rest.last());
    assert(trim_end(url, '/') == url);
    lemma_scheme_found(url, scheme, rest, 0);
    assert(url_scheme(url) =~= scheme);
    assert(url_rest(url) =~= rest);
    assert(seq!['h', 't', 't', 'p'] =~= "http"@);
    assert(seq!['h', 't', 't', 'p', 's'] =~= "https"@);
    assert(seq!['f', 'i', 'l', 'e'] =~= "file"@);
    lemma_first_index(rest, '/');
    let first = segments(rest, '/')[0];
    assert(!has_char(first, '@')) by {
        match first_index(rest, '/') {
            Some(i) => {
                assert(first == rest.take(i));
                if has_char(first, '@') {
                    let k = choose|k: int| 0 <= k < first.len() && first[k] == '@';
                    assert(rest[k] == '@');
                }
            },
            None => {
                assert(first == rest);
            },
        }
    }
}

} // verus!
