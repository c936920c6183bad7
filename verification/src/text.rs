//! Text operations that the protocol and the user interface rely on:
//! trimming, searching, splitting, joining and replacing, each stated over
//! the string's sequence of chars.
use vstd::prelude::*;
use vstd::utf8::{encode_utf8, is_ascii_chars, is_ascii_chars_encode_utf8, valid_utf8, decode_utf8};

verus! {

broadcast use {vstd::utf8::encode_utf8_valid_utf8, vstd::utf8::encode_utf8_decode_utf8};

/// What `str::to_lowercase` gives for a string, taken as a sequence of chars.
pub uninterp spec fn unicode_lowercase(s: Seq<char>) -> Seq<char>;

/// The ASCII lower case of a char: `A`-`Z` become `a`-`z`, every other char
/// stays.
pub open spec fn ascii_lower_char(c: char) -> char {
    if 'A' <= c && c <= 'Z' {
        ((c as u32) + 32) as char
    } else {
        c
    }
}

/// A string lower-cased as `str::to_lowercase` does it: char by char in
/// ASCII (where Unicode's lower-case mapping is the ASCII one), by the full
/// Unicode mapping otherwise.
pub open spec fn lowercase(s: Seq<char>) -> Seq<char> {
    if is_ascii_chars(s) {
        s.map_values(|c: char| ascii_lower_char(c))
    } else {
        unicode_lowercase(s)
    }
}

/// Calls `str::to_lowercase`; the result is the name `unicode_lowercase` of
/// the argument.
#[verifier::external_body]
fn std_to_lowercase(s: &str) -> (res: String)
    ensures
        res@ == unicode_lowercase(s@),
{
    s.to_lowercase()
}

/// Calls `String::from_utf8`, which succeeds exactly on valid UTF-8 and then
/// holds the decoded characters.
#[verifier::external_body]
pub(crate) fn string_from_utf8(bytes: Vec<u8>) -> (res: Result<String, std::string::FromUtf8Error>)
    ensures
        res is Ok <==> valid_utf8(bytes@),
        res matches Ok(s) ==> s@ == decode_utf8(bytes@),
{
    String::from_utf8(bytes)
}

/// Lower-casing an ASCII string keeps its length and maps each char to its
/// ASCII lower case; a name already in lower-case ASCII is left as it is,
/// whatever its length.
pub proof fn lemma_lowercase_ascii(s: Seq<char>)
    requires
        is_ascii_chars(s),
    ensures
        lowercase(s).len() == s.len(),
        forall|i: int|
            0 <= i < s.len() ==> #[trigger] lowercase(s)[i] == if 'A' <= s[i] && s[i] <= 'Z' {
                ((s[i] as u32) + 32) as char
            } else {
                s[i]
            },
        (forall|i: int| 0 <= i < s.len() ==> !('A' <= #[trigger] s[i] && s[i] <= 'Z')) ==> lowercase(s) == s,
{
    if forall|i: int| 0 <= i < s.len() ==> !('A' <= #[trigger] s[i] && s[i] <= 'Z') {
        assert(lowercase(s) =~= s);
    }
}

/// Lower-cases a string as the standard library does: an ASCII string char
/// by char, here; any other string by `str::to_lowercase`. An ASCII string
/// keeps its length, and each char becomes its ASCII lower case.
pub(crate) fn to_lowercase(s: &str) -> (res: String)
    ensures
        res@ == lowercase(s@),
        is_ascii_chars(s@) ==> res@.len() == s@.len() && forall|i: int|
            0 <= i < s@.len() ==> res@[i] == if 'A' <= #[trigger] s@[i] && s@[i] <= 'Z' {
                ((s@[i] as u32) + 32) as char
            } else {
                s@[i]
            },
{
    if !s.is_ascii() {
        return std_to_lowercase(s);
    }
    let ghost target = s@.map_values(|c: char| ascii_lower_char(c));
    let bytes = s.as_bytes();
    proof {
        is_ascii_chars_encode_utf8(s@);
        assert(is_ascii_chars(target));
        is_ascii_chars_encode_utf8(target);
    }
    let mut out: Vec<u8> = Vec::new();
    let mut i: usize = 0;
    while i < bytes.len()
        invariant
            bytes@ == encode_utf8(s@),
            bytes@.len() == s@.len(),
            target.len() == s@.len(),
            encode_utf8(target).len() == target.len(),
            forall|k: int| 0 <= k < s@.len() ==> s@[k] as u8 == encode_utf8(s@)[k],
            forall|k: int| 0 <= k < target.len() ==> target[k] as u8 == encode_utf8(target)[k],
            forall|k: int| 0 <= k < s@.len() ==> target[k] == ascii_lower_char(s@[k]),
            is_ascii_chars(s@),
            i <= bytes@.len(),
            out@ == encode_utf8(target).subrange(0, i as int),
        decreases bytes@.len() - i,
    {
        let b = bytes[i];
        let lb: u8 = if 65 <= b && b <= 90 {
            b + 32
        } else {
            b
        };
        proof {
            let c = s@[i as int];
            assert('\0' <= c && c <= '\u{7f}');
            assert(c as u8 == b);
            assert(target[i as int] as u8 == lb);
        }
        out.push(lb);
        i = i + 1;
        assert(out@ =~= encode_utf8(target).subrange(0, i as int));
    }
    assert(out@ =~= encode_utf8(target));
    match string_from_utf8(out) {
        Ok(t) => t,
        Err(_) => {
            assert(false);
            String::new()
        },
    }
}

/// The chars with the Unicode `White_Space` property, which
/// `char::is_whitespace` accepts.
pub open spec fn is_whitespace(c: char) -> bool {
    let u = c as u32;
    ||| 0x09 <= u <= 0x0d
    ||| u == 0x20
    ||| u == 0x85
    ||| u == 0xa0
    ||| u == 0x1680
    ||| 0x2000 <= u <= 0x200a
    ||| u == 0x2028
    ||| u == 0x2029
    ||| u == 0x202f
    ||| u == 0x205f
    ||| u == 0x3000
}

/// `s` without its leading whitespace.
pub open spec fn trim_start(s: Seq<char>) -> Seq<char>
    decreases s.len(),
{
    if s.len() > 0 && is_whitespace(s[0]) {
        trim_start(s.drop_first())
    } else {
        s
    }
}

/// `s` without its trailing whitespace.
pub open spec fn trim_end(s: Seq<char>) -> Seq<char>
    decreases s.len(),
{
    if s.len() > 0 && is_whitespace(s.last()) {
        trim_end(s.drop_last())
    } else {
        s
    }
}

/// `s` without leading and trailing whitespace, as `str::trim` gives it.
pub open spec fn trimmed(s: Seq<char>) -> Seq<char> {
    trim_end(trim_start(s))
}

/// Whether `pat` stands in `s` at index `i`.
pub open spec fn occurs_at(s: Seq<char>, pat: Seq<char>, i: int) -> bool {
    0 <= i && i + pat.len() <= s.len() && s.subrange(i, i + pat.len()) == pat
}

/// Whether `pat` stands anywhere in `s`.
pub open spec fn contains_seq(s: Seq<char>, pat: Seq<char>) -> bool {
    exists|i: int| occurs_at(s, pat, i)
}

/// Whether `s` begins with `prefix`.
pub open spec fn starts_with_seq(s: Seq<char>, prefix: Seq<char>) -> bool {
    occurs_at(s, prefix, 0)
}

/// Whether `s` ends with `suffix`.
pub open spec fn ends_with_seq(s: Seq<char>, suffix: Seq<char>) -> bool {
    occurs_at(s, suffix, s.len() - suffix.len())
}

/// The first index at or after `from` where the non-empty `pat` stands in `s`.
pub open spec fn first_occurrence(s: Seq<char>, pat: Seq<char>, from: int) -> Option<int>
    decreases s.len() - from,
{
    if from < 0 || pat.len() == 0 || from + pat.len() > s.len() {
        None
    } else if s.subrange(from, from + pat.len()) == pat {
        Some(from)
    } else {
        first_occurrence(s, pat, from + 1)
    }
}

/// The pieces of `s` between the non-overlapping occurrences of the
/// non-empty `sep`, searched from the left, as `str::split` gives them.
pub open spec fn split_seq(s: Seq<char>, sep: Seq<char>) -> Seq<Seq<char>>
    decreases s.len(),
{
    match first_occurrence(s, sep, 0) {
        None => seq![s],
        Some(i) => {
            proof {
                lemma_first_occurrence(s, sep, 0);
            }
            seq![s.subrange(0, i)] + split_seq(s.subrange(i + sep.len(), s.len() as int), sep)
        },
    }
}

/// The pieces joined with `sep` between each two, as `[String]::join` gives it.
pub open spec fn join_seq(parts: Seq<Seq<char>>, sep: Seq<char>) -> Seq<char>
    decreases parts.len(),
{
    if parts.len() == 0 {
        Seq::empty()
    } else if parts.len() == 1 {
        parts[0]
    } else {
        join_seq(parts.drop_last(), sep) + sep + parts.last()
    }
}

/// `s` with every occurrence of the non-empty `pat` replaced by `with`, as
/// `str::replace` gives it.
pub open spec fn replace_seq(s: Seq<char>, pat: Seq<char>, with: Seq<char>) -> Seq<char> {
    join_seq(split_seq(s, pat), with)
}

/// The views of a sequence of strings.
pub open spec fn views(v: Seq<String>) -> Seq<Seq<char>> {
    v.map_values(|x: String| x@)
}

/// A first occurrence lies in range, is an occurrence, and nothing between
/// `from` and it is one.
pub proof fn lemma_first_occurrence(s: Seq<char>, pat: Seq<char>, from: int)
    ensures
        first_occurrence(s, pat, from) matches Some(i) ==> from <= i && pat.len() > 0 && occurs_at(s, pat, i)
            && forall|k: int| from <= k < i ==> !occurs_at(s, pat, k),
        first_occurrence(s, pat, from) is None && from >= 0 ==> forall|k: int| from <= k ==> !occurs_at(s, pat, k)
            || pat.len() == 0,
    decreases s.len() - from,
{
    if from < 0 || pat.len() == 0 || from + pat.len() > s.len() {
    } else if s.subrange(from, from + pat.len()) == pat {
    } else {
        lemma_first_occurrence(s, pat, from + 1);
    }
}


/// The first occurrence at or after `from` is `i` when `pat` stands at `i`
/// and nowhere between `from` and `i`.
pub proof fn lemma_first_occurrence_at(s: Seq<char>, pat: Seq<char>, from: int, i: int)
    requires
        0 <= from <= i,
        pat.len() > 0,
        occurs_at(s, pat, i),
        forall|k: int| from <= k < i ==> !occurs_at(s, pat, k),
    ensures
        first_occurrence(s, pat, from) == Some(i),
    decreases i - from,
{
    if from < i {
        assert(!occurs_at(s, pat, from));
        lemma_first_occurrence_at(s, pat, from + 1, i);
    }
}

/// Joining from the front: the first piece, the separator, and the rest joined.
pub proof fn lemma_join_front(parts: Seq<Seq<char>>, sep: Seq<char>)
    requires
        parts.len() >= 2,
    ensures
        join_seq(parts, sep) == parts[0] + sep + join_seq(parts.drop_first(), sep),
    decreases parts.len(),
{
    if parts.len() == 2 {
        assert(parts.drop_last() =~= seq![parts[0]]);
        assert(parts.drop_first() =~= seq![parts[1]]);
        assert(join_seq(parts.drop_last(), sep) == parts[0]);
        assert(join_seq(parts.drop_first(), sep) == parts[1]);
    } else {
        let dl = parts.drop_last();
        let df = parts.drop_first();
        lemma_join_front(dl, sep);
        assert(dl.drop_first() =~= df.drop_last());
        assert(df.last() == parts.last());
        assert(dl[0] == parts[0]);
        assert(join_seq(df, sep) == join_seq(df.drop_last(), sep) + sep + df.last());
        assert(join_seq(parts, sep) == join_seq(dl, sep) + sep + parts.last());
        assert(join_seq(parts, sep) =~= parts[0] + sep + join_seq(df, sep));
    }
}

/// A pattern without commas that does not begin with a space, found in
/// neither of two texts, is not found in the two joined with `, `.
pub proof fn lemma_not_across_separator(a: Seq<char>, b: Seq<char>, pat: Seq<char>)
    requires
        pat.len() > 0,
        pat[0] != ' ',
        !pat.contains(','),
        !contains_seq(a, pat),
        !contains_seq(b, pat),
    ensures
        !contains_seq(a + ", "@ + b, pat),
{
    reveal_strlit(", ");
    let s = a + ", "@ + b;
    let n = a.len() as int;
    if contains_seq(s, pat) {
        let k = choose|k: int| occurs_at(s, pat, k);
        let m = pat.len() as int;
        assert(s.subrange(k, k + m) == pat);
        if k + m <= n {
            assert(a.subrange(k, k + m) =~= s.subrange(k, k + m));
            assert(occurs_at(a, pat, k));
        } else if k >= n + 2 {
            assert(b.subrange(k - n - 2, k - n - 2 + m) =~= s.subrange(k, k + m));
            assert(occurs_at(b, pat, k - n - 2));
        } else if k <= n {
            assert(s[n] == ',');
            assert(pat[n - k] == s.subrange(k, k + m)[n - k]);
            assert(pat.contains(','));
        } else {
            assert(s[n + 1] == ' ');
            assert(pat[0] == s.subrange(k, k + m)[0]);
        }
    }
}

/// Splitting at `, ` gives back the pieces that were joined with `, `,
/// provided no piece holds `, `.
pub proof fn lemma_split_join(parts: Seq<Seq<char>>)
    requires
        parts.len() > 0,
        forall|i: int| 0 <= i < parts.len() ==> !contains_seq(#[trigger] parts[i], ", "@),
    ensures
        split_seq(join_seq(parts, ", "@), ", "@) == parts,
    decreases parts.len(),
{
    reveal_strlit(", ");
    let sep = ", "@;
    if parts.len() == 1 {
        let t = parts[0];
        if first_occurrence(t, sep, 0) is Some {
            lemma_first_occurrence(t, sep, 0);
        }
        assert(split_seq(t, sep) == seq![t]);
        assert(seq![t] =~= parts);
    } else {
        lemma_join_front(parts, sep);
        let a = parts[0];
        let rest = join_seq(parts.drop_first(), sep);
        let s = a + sep + rest;
        let n = a.len() as int;
        assert(s.subrange(n, n + 2) =~= sep);
        assert forall|k: int| 0 <= k < n implies !occurs_at(s, sep, k) by {
            if occurs_at(s, sep, k) {
                if k + 2 <= n {
                    assert(a.subrange(k, k + 2) =~= s.subrange(k, k + 2));
                    assert(occurs_at(a, sep, k));
                } else {
                    assert(s.subrange(k, k + 2)[1] == s[n]);
                    assert(s[n] == ',');
                }
            }
        }
        lemma_first_occurrence_at(s, sep, 0, n);
        assert(s.subrange(0, n) =~= a);
        assert(s.subrange(n + 2, s.len() as int) =~= rest);
        assert forall|i: int| 0 <= i < parts.drop_first().len() implies !contains_seq(
            #[trigger] parts.drop_first()[i],
            ", "@,
        ) by {
            assert(parts.drop_first()[i] == parts[i + 1]);
        }
        lemma_split_join(parts.drop_first());
        assert(seq![a] + parts.drop_first() =~= parts);
    }
}

/// A pattern without commas that does not begin with a space is found in
/// pieces joined with `, ` only if it is found in one of the pieces.
pub proof fn lemma_join_avoids(parts: Seq<Seq<char>>, pat: Seq<char>)
    requires
        pat.len() > 0,
        pat[0] != ' ',
        !pat.contains(','),
        forall|i: int| 0 <= i < parts.len() ==> !contains_seq(#[trigger] parts[i], pat),
    ensures
        !contains_seq(join_seq(parts, ", "@), pat),
    decreases parts.len(),
{
    if parts.len() >= 2 {
        assert forall|i: int| 0 <= i < parts.drop_last().len() implies !contains_seq(
            #[trigger] parts.drop_last()[i],
            pat,
        ) by {
            assert(parts.drop_last()[i] == parts[i]);
        }
        lemma_join_avoids(parts.drop_last(), pat);
        lemma_not_across_separator(join_seq(parts.drop_last(), ", "@), parts.last(), pat);
    }
}

/// The chars of a string, in order.
pub fn chars_of(s: &str) -> (out: Vec<char>)
    ensures
        out@ == s@,
{
    let n = s.unicode_len();
    let mut out: Vec<char> = Vec::new();
    let mut i: usize = 0;
    while i < n
        invariant
            n == s@.len(),
            i <= n,
            out@ == s@.subrange(0, i as int),
        decreases n - i,
    {
        out.push(s.get_char(i));
        i = i + 1;
    }
    assert(s@.subrange(0, n as int) =~= s@);
    out
}

/// Whether `c` has the Unicode `White_Space` property.
pub fn is_whitespace_char(c: char) -> (b: bool)
    ensures
        b == is_whitespace(c),
{
    let u = c as u32;
    (0x09 <= u && u <= 0x0d) || u == 0x20 || u == 0x85 || u == 0xa0 || u == 0x1680 || (0x2000 <= u
        && u <= 0x200a) || u == 0x2028 || u == 0x2029 || u == 0x202f || u == 0x205f || u == 0x3000
}

/// `s` without leading and trailing whitespace.
pub fn trim(s: &str) -> (res: String)
    ensures
        res@ == trimmed(s@),
{
    let chars = chars_of(s);
    let n = chars.len();
    let mut i: usize = 0;
    assert(s@.subrange(0, n as int) =~= s@);
    while i < n && is_whitespace_char(chars[i])
        invariant
            n == s@.len(),
            chars@ == s@,
            i <= n,
            trim_start(s@) == trim_start(s@.subrange(i as int, n as int)),
        decreases n - i,
    {
        assert(s@.subrange(i as int, n as int).drop_first() =~= s@.subrange(i + 1, n as int));
        i = i + 1;
    }
    let mut j: usize = n;
    while j > i && is_whitespace_char(chars[j - 1])
        invariant
            n == s@.len(),
            chars@ == s@,
            i <= j <= n,
            trim_start(s@) == s@.subrange(i as int, n as int),
            trim_end(s@.subrange(i as int, n as int)) == trim_end(s@.subrange(i as int, j as int)),
        decreases j,
    {
        assert(s@.subrange(i as int, j as int).drop_last() =~= s@.subrange(i as int, j - 1));
        j = j - 1;
    }
    String::from_str(s.substring_char(i, j))
}

/// Whether `pat` stands in `s` at index `i`.
fn matches_at(s: &Vec<char>, pat: &Vec<char>, i: usize) -> (b: bool)
    ensures
        b == occurs_at(s@, pat@, i as int),
{
    if i > s.len() || pat.len() > s.len() - i {
        return false;
    }
    let mut k: usize = 0;
    while k < pat.len()
        invariant
            i + pat@.len() <= s@.len(),
            s@.len() <= usize::MAX,
            k <= pat@.len(),
            forall|m: int| 0 <= m < k ==> s@[i + m] == pat@[m],
        decreases pat@.len() - k,
    {
        if s[i + k] != pat[k] {
            assert(s@.subrange(i as int, i + pat@.len())[k as int] != pat@[k as int]);
            return false;
        }
        k = k + 1;
    }
    assert(s@.subrange(i as int, i + pat@.len()) =~= pat@);
    true
}

/// The first index at or after `from` where the non-empty `pat` stands in `s`.
fn find_from(s: &Vec<char>, pat: &Vec<char>, from: usize) -> (res: Option<usize>)
    requires
        pat@.len() > 0,
        from <= s@.len(),
    ensures
        res == (match first_occurrence(s@, pat@, from as int) {
            Some(i) => Some(i as usize),
            None => None::<usize>,
        }),
        res matches Some(i) ==> from <= i && i + pat@.len() <= s@.len(),
{
    let mut k: usize = from;
    while k < s.len() && pat.len() <= s.len() - k
        invariant
            from <= k <= s@.len(),
            pat@.len() > 0,
            first_occurrence(s@, pat@, from as int) == first_occurrence(s@, pat@, k as int),
        decreases s@.len() - k,
    {
        if matches_at(s, pat, k) {
            return Some(k);
        }
        k = k + 1;
    }
    None
}


/// The first index where the non-empty `pat` stands in `s`.
pub fn find(s: &str, pat: &str) -> (res: Option<usize>)
    requires
        pat@.len() > 0,
    ensures
        res == (match first_occurrence(s@, pat@, 0) {
            Some(i) => Some(i as usize),
            None => None::<usize>,
        }),
        res matches Some(i) ==> i + pat@.len() <= s@.len(),
{
    let sv = chars_of(s);
    let pv = chars_of(pat);
    find_from(&sv, &pv, 0)
}

/// Whether `pat` stands anywhere in `s`.
pub fn contains(s: &str, pat: &str) -> (b: bool)
    ensures
        b == contains_seq(s@, pat@),
{
    let sv = chars_of(s);
    let pv = chars_of(pat);
    if pv.len() == 0 {
        assert(occurs_at(s@, pat@, 0)) by {
            assert(s@.subrange(0, 0) =~= pat@);
        }
        return true;
    }
    let found = find_from(&sv, &pv, 0);
    proof {
        lemma_first_occurrence(s@, pat@, 0);
    }
    found.is_some()
}

/// Whether `s` begins with `prefix`.
pub fn starts_with(s: &str, prefix: &str) -> (b: bool)
    ensures
        b == starts_with_seq(s@, prefix@),
{
    let sv = chars_of(s);
    let pv = chars_of(prefix);
    matches_at(&sv, &pv, 0)
}

/// Whether `s` ends with `suffix`.
pub fn ends_with(s: &str, suffix: &str) -> (b: bool)
    ensures
        b == ends_with_seq(s@, suffix@),
{
    let sv = chars_of(s);
    let pv = chars_of(suffix);
    if pv.len() > sv.len() {
        return false;
    }
    matches_at(&sv, &pv, sv.len() - pv.len())
}

/// Whether `name` is one of `users`.
pub fn contains_text(users: &Vec<String>, name: &String) -> (b: bool)
    ensures
        b == views(users@).contains(name@),
{
    let mut i: usize = 0;
    while i < users.len()
        invariant
            i <= users@.len(),
            forall|k: int| 0 <= k < i ==> views(users@)[k] != name@,
        decreases users@.len() - i,
    {
        if users[i] == *name {
            assert(views(users@)[i as int] == name@);
            return true;
        }
        i = i + 1;
    }
    false
}

/// Whether two strings hold the same chars.
pub fn same_text(a: &str, b: &str) -> (res: bool)
    ensures
        res == (a@ == b@),
{
    String::from_str(a) == String::from_str(b)
}

/// Searching a suffix of `s` finds what searching `s` finds, shifted.
proof fn lemma_first_occurrence_shift(s: Seq<char>, pat: Seq<char>, start: int, k: int)
    requires
        0 <= start <= k,
        start <= s.len(),
    ensures
        first_occurrence(s.subrange(start, s.len() as int), pat, k - start) == (match first_occurrence(
            s,
            pat,
            k,
        ) {
            Some(i) => Some(i - start),
            None => None::<int>,
        }),
    decreases s.len() - k,
{
    let t = s.subrange(start, s.len() as int);
    if pat.len() == 0 || k + pat.len() > s.len() {
    } else {
        assert(t.subrange(k - start, k - start + pat.len()) =~= s.subrange(k, k + pat.len()));
        if s.subrange(k, k + pat.len()) == pat {
        } else {
            lemma_first_occurrence_shift(s, pat, start, k + 1);
        }
    }
}

/// The views of a vector after a push.
proof fn lemma_views_push(v: Seq<String>, x: String)
    ensures
        views(v.push(x)) == views(v).push(x@),
{
    assert(views(v.push(x)) =~= views(v).push(x@));
}

/// The pieces of `s` between the occurrences of the non-empty `sep`.
pub fn split(s: &str, sep: &str) -> (parts: Vec<String>)
    requires
        sep@.len() > 0,
    ensures
        views(parts@) == split_seq(s@, sep@),
{
    let sv = chars_of(s);
    let pv = chars_of(sep);
    let n = sv.len();
    let mut parts: Vec<String> = Vec::new();
    let mut start: usize = 0;
    assert(s@.subrange(0, n as int) =~= s@);
    assert(views(parts@) =~= Seq::<Seq<char>>::empty());
    loop
        invariant
            sv@ == s@,
            pv@ == sep@,
            sep@.len() > 0,
            n == s@.len(),
            start <= n,
            views(parts@) + split_seq(s@.subrange(start as int, n as int), sep@) == split_seq(s@, sep@),
        decreases n - start,
    {
        let ghost rest = s@.subrange(start as int, n as int);
        proof {
            lemma_first_occurrence_shift(s@, sep@, start as int, start as int);
            lemma_first_occurrence(s@, sep@, start as int);
            assert(rest =~= s@.subrange(start as int, s@.len() as int));
        }
        match find_from(&sv, &pv, start) {
            None => {
                let piece = String::from_str(s.substring_char(start, n));
                proof {
                    lemma_views_push(parts@, piece);
                }
                parts.push(piece);
                assert(split_seq(rest, sep@) == seq![rest]);
                return parts;
            },
            Some(i) => {
                let piece = String::from_str(s.substring_char(start, i));
                proof {
                    lemma_views_push(parts@, piece);
                    assert(first_occurrence(rest, sep@, 0) == Some(i - start));
                    assert(rest.subrange(0, i - start) =~= s@.subrange(start as int, i as int));
                    assert(rest.subrange(i - start + sep@.len(), rest.len() as int) =~= s@.subrange(
                        i + sep@.len(),
                        n as int,
                    ));
                    assert(split_seq(rest, sep@) == seq![s@.subrange(start as int, i as int)]
                        + split_seq(s@.subrange(i + sep@.len(), n as int), sep@));
                    assert(views(parts@).push(piece@) + split_seq(s@.subrange(i + sep@.len(), n as int), sep@)
                        =~= views(parts@) + split_seq(rest, sep@));
                }
                parts.push(piece);
                start = i + pv.len();
            },
        }
    }
}

/// The pieces joined with `sep` between each two.
pub fn join(parts: &Vec<String>, sep: &str) -> (res: String)
    ensures
        res@ == join_seq(views(parts@), sep@),
{
    let mut res = String::new();
    let mut i: usize = 0;
    assert(views(parts@).take(0) =~= Seq::<Seq<char>>::empty());
    while i < parts.len()
        invariant
            i <= parts@.len(),
            res@ == join_seq(views(parts@).take(i as int), sep@),
        decreases parts@.len() - i,
    {
        if i > 0 {
            res.append(sep);
        }
        res.append(parts[i].as_str());
        proof {
            assert(views(parts@).take(i + 1).drop_last() =~= views(parts@).take(i as int));
            if i == 0 {
                assert(views(parts@).take(1) =~= seq![parts@[0]@]);
            }
        }
        i = i + 1;
    }
    assert(views(parts@).take(parts@.len() as int) =~= views(parts@));
    res
}

/// `s` with every occurrence of the non-empty `pat` replaced by `with`.
pub fn replace_all(s: &str, pat: &str, with: &str) -> (res: String)
    requires
        pat@.len() > 0,
    ensures
        res@ == replace_seq(s@, pat@, with@),
{
    let parts = split(s, pat);
    join(&parts, with)
}

/// The first line of `s`, as `str::lines` gives it: up to the first line
/// feed, without a carriage return that stands right before it.
pub open spec fn first_line_seq(s: Seq<char>) -> Seq<char> {
    match first_occurrence(s, seq!['\n'], 0) {
        None => s,
        Some(i) => if i > 0 && s[i - 1] == '\r' {
            s.subrange(0, i - 1)
        } else {
            s.subrange(0, i)
        },
    }
}

/// The first line of `s`.
pub fn first_line(s: &str) -> (line: String)
    ensures
        line@ == first_line_seq(s@),
{
    let sv = chars_of(s);
    let mut nl: Vec<char> = Vec::new();
    nl.push('\n');
    assert(nl@ =~= seq!['\n']);
    proof {
        lemma_first_occurrence(s@, seq!['\n'], 0);
    }
    if sv.len() == 0 {
        return String::new();
    }
    let found = find_from(&sv, &nl, 0);
    match found {
        None => {
            assert(first_occurrence(s@, seq!['\n'], 0) is None);
            String::from_str(s)
        },
        Some(i) => {
            assert(first_occurrence(s@, seq!['\n'], 0) == Some(i as int));
            if i > 0 && sv[i - 1] == '\r' {
                String::from_str(s.substring_char(0, i - 1))
            } else {
                String::from_str(s.substring_char(0, i))
            }
        },
    }
}

/// The decimal digit `d`.
pub open spec fn digit_char(d: int) -> char {
    (('0' as int) + d) as char
}

/// The decimal text of `n`, without leading zeros, as `u64::to_string` gives it.
pub open spec fn decimal(n: nat) -> Seq<char>
    decreases n,
{
    if n < 10 {
        seq![digit_char(n as int)]
    } else {
        decimal(n / 10) + seq![digit_char((n % 10) as int)]
    }
}

/// The one-char text of the decimal digit `d`.
fn digit_text(d: u64) -> (s: &'static str)
    requires
        d < 10,
    ensures
        s@ == seq![digit_char(d as int)],
{
    proof {
        reveal_strlit("0");
        reveal_strlit("1");
        reveal_strlit("2");
        reveal_strlit("3");
        reveal_strlit("4");
        reveal_strlit("5");
        reveal_strlit("6");
        reveal_strlit("7");
        reveal_strlit("8");
        reveal_strlit("9");
    }
    let s = if d == 0 {
        "0"
    } else if d == 1 {
        "1"
    } else if d == 2 {
        "2"
    } else if d == 3 {
        "3"
    } else if d == 4 {
        "4"
    } else if d == 5 {
        "5"
    } else if d == 6 {
        "6"
    } else if d == 7 {
        "7"
    } else if d == 8 {
        "8"
    } else {
        "9"
    };
    assert(s@ =~= seq![digit_char(d as int)]);
    s
}

/// The decimal text of `n`.
pub fn decimal_string(n: u64) -> (s: String)
    ensures
        s@ == decimal(n as nat),
    decreases n,
{
    if n < 10 {
        String::from_str(digit_text(n))
    } else {
        let mut s = decimal_string(n / 10);
        s.append(digit_text(n % 10));
        s
    }
}

} // verus!
