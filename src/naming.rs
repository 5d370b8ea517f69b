//! Turning a catalog entry's name and URL into the file it is stored under.
use vstd::prelude::*;

verus! {

/// Whether `char::is_alphanumeric` holds of a character.
pub uninterp spec fn is_alnum(c: char) -> bool;

/// The extension that `std::path::Path::extension` finds in a path.
pub uninterp spec fn path_extension_of(s: Seq<char>) -> Option<Seq<char>>;

/// Relies on `char::is_alphanumeric`: whether the character is alphabetic or numeric.
#[verifier::external_body]
fn is_alphanumeric(c: char) -> (r: bool)
    ensures
        r == is_alnum(c),
{
    c.is_alphanumeric()
}

/// Relies on `std::path::Path::extension`: the part of the last path segment after its
/// final `.`. Without any `.` there is none, and an extension never holds a `.`.
/// A path made from a `str` has a UTF-8 extension, so `to_str` only converts.
#[verifier::external_body]
fn path_extension(s: &str) -> (r: Option<String>)
    ensures
        match r {
            Some(e) => path_extension_of(s@) == Some(e@),
            None => path_extension_of(s@) is None,
        },
        !s@.contains('.') ==> r is None,
        r matches Some(e) ==> !e@.contains('.'),
{
    std::path::Path::new(s).extension().and_then(|e| e.to_str()).map(|e| e.to_string())
}

/// Relies on `String::push`: appends one character at the end.
#[verifier::external_body]
fn push_char(s: &mut String, c: char)
    ensures
        final(s)@ == old(s)@.push(c),
{
    s.push(c);
}

/// Characters that may stand in a file stem as they are.
pub open spec fn is_kept(c: char) -> bool {
    is_alnum(c) || c == '-' || c == '_'
}

/// Every character that may not stand in a stem, replaced by `_`.
pub open spec fn replace_disallowed(s: Seq<char>) -> Seq<char> {
    s.map_values(|c: char| if is_kept(c) { c } else { '_' })
}

/// `s` without its leading `_`.
pub open spec fn trim_start_underscores(s: Seq<char>) -> Seq<char>
    decreases s.len(),
{
    if s.len() > 0 && s[0] == '_' {
        trim_start_underscores(s.drop_first())
    } else {
        s
    }
}

/// `s` without its trailing `_`.
pub open spec fn trim_end_underscores(s: Seq<char>) -> Seq<char>
    decreases s.len(),
{
    if s.len() > 0 && s.last() == '_' {
        trim_end_underscores(s.drop_last())
    } else {
        s
    }
}

/// A name with its disallowed characters replaced and leading and trailing `_` removed.
pub open spec fn sanitised(name: Seq<char>) -> Seq<char> {
    trim_end_underscores(trim_start_underscores(replace_disallowed(name)))
}

/// The stem used when sanitising leaves nothing.
pub open spec fn placeholder_stem() -> Seq<char> {
    seq!['e', 'm', 'o', 'j', 'i']
}

/// The extension used when a URL has none.
pub open spec fn default_extension() -> Seq<char> {
    seq!['.', 'p', 'n', 'g']
}

/// The stem of the file that stores an item of the given name.
pub open spec fn stem_of(name: Seq<char>) -> Seq<char> {
    if sanitised(name).len() == 0 {
        placeholder_stem()
    } else {
        sanitised(name)
    }
}

/// The extension of the file that stores an item fetched from the given URL.
pub open spec fn extension_of(url: Seq<char>) -> Seq<char> {
    match path_extension_of(url) {
        Some(e) => if e.len() > 0 && e[0] == '.' {
            e
        } else {
            seq!['.'] + e
        },
        None => default_extension(),
    }
}

/// The name of the file that stores an item.
pub open spec fn filename_of(name: Seq<char>, url: Seq<char>) -> Seq<char> {
    stem_of(name) + extension_of(url)
}

/// Whether `s` begins with `p`.
pub open spec fn has_prefix(s: Seq<char>, p: Seq<char>) -> bool {
    p.len() <= s.len() && s.subrange(0, p.len() as int) == p
}

/// Whether a URL names the `http` or `https` scheme.
pub open spec fn is_http_url(url: Seq<char>) -> bool {
    has_prefix(url, "http://"@) || has_prefix(url, "https://"@)
}

/// Replaces each character that is not alphanumeric, `-` or `_` by `_`, then trims
/// `_` from both ends. The result may be empty.
pub fn sanitise_filename(name: &str) -> (r: String)
    ensures
        r@ == sanitised(name@),
{
    let n = name.unicode_len();
    let mut mapped: Vec<char> = Vec::new();
    let mut i: usize = 0;
    while i < n
        invariant
            n == name@.len(),
            i <= n,
            mapped@ == replace_disallowed(name@.subrange(0, i as int)),
        decreases n - i,
    {
        let c = name.get_char(i);
        let kept = is_alphanumeric(c) || c == '-' || c == '_';
        if kept {
            mapped.push(c);
        } else {
            mapped.push('_');
        }
        assert(name@.subrange(0, i + 1) =~= name@.subrange(0, i as int).push(c));
        assert(replace_disallowed(name@.subrange(0, i + 1)) =~= mapped@);
        i = i + 1;
    }
    assert(name@.subrange(0, n as int) =~= name@);
    let ghost t = mapped@;
    let len = mapped.len();
    let mut lo: usize = 0;
    assert(t.subrange(0, len as int) =~= t);
    while lo < len && mapped[lo] == '_'
        invariant
            mapped@ == t,
            len == t.len(),
            lo <= len,
            trim_start_underscores(t) == trim_start_underscores(t.subrange(lo as int, len as int)),
        decreases len - lo,
    {
        assert(t.subrange(lo as int, len as int).drop_first() =~= t.subrange(lo + 1, len as int));
        lo = lo + 1;
    }
    assert(trim_start_underscores(t.subrange(lo as int, len as int)) == t.subrange(
        lo as int,
        len as int,
    ));
    let mut hi: usize = len;
    while hi > lo && mapped[hi - 1] == '_'
        invariant
            mapped@ == t,
            len == t.len(),
            lo <= hi <= len,
            sanitised(name@) == trim_end_underscores(t.subrange(lo as int, hi as int)),
        decreases hi,
    {
        assert(t.subrange(lo as int, hi as int).drop_last() =~= t.subrange(lo as int, hi - 1));
        hi = hi - 1;
    }
    let mut r = String::new();
    let mut j: usize = lo;
    while j < hi
        invariant
            mapped@ == t,
            len == t.len(),
            lo <= j <= hi <= len,
            r@ == t.subrange(lo as int, j as int),
        decreases hi - j,
    {
        push_char(&mut r, mapped[j]);
        assert(t.subrange(lo as int, j + 1) =~= t.subrange(lo as int, j as int).push(t[j as int]));
        j = j + 1;
    }
    r
}

/// The extension of the last path segment of `url`, with a leading `.`, or `.png`
/// where there is none.
pub fn extract_extension(url: &str) -> (r: String)
    ensures
        r@ == extension_of(url@),
        r@.len() > 0 && r@[0] == '.',
        path_extension_of(url@) is None ==> r@ == default_extension(),
        !url@.contains('.') ==> r@ == default_extension(),
{
    match path_extension(url) {
        Some(e) => {
            let s = e.as_str();
            if s.unicode_len() > 0 && s.get_char(0) == '.' {
                e
            } else {
                let dot = String::from_str(".");
                proof {
                    reveal_strlit(".");
                }
                let r = dot.concat(s);
                assert(r@ =~= seq!['.'] + e@);
                r
            }
        },
        None => {
            proof {
                reveal_strlit(".png");
            }
            let r = String::from_str(".png");
            assert(r@ =~= default_extension());
            r
        },
    }
}

/// The stem of the file for an item: its sanitised name, or `emoji` where that is empty.
pub fn file_stem(name: &str) -> (r: String)
    ensures
        r@ == stem_of(name@),
        r@.len() > 0,
{
    let s = sanitise_filename(name);
    if s.as_str().unicode_len() == 0 {
        proof {
            reveal_strlit("emoji");
        }
        let r = String::from_str("emoji");
        assert(r@ =~= placeholder_stem());
        r
    } else {
        s
    }
}

/// The file name that stores an item: its stem followed by its extension.
pub fn derive_filename(name: &str, url: &str) -> (r: String)
    ensures
        r@ == filename_of(name@, url@),
{
    let stem = file_stem(name);
    let ext = extract_extension(url);
    stem.concat(ext.as_str())
}

proof fn lemma_trim_start_all_underscores(s: Seq<char>)
    requires
        forall|i: int| 0 <= i < s.len() ==> s[i] == '_',
    ensures
        trim_start_underscores(s).len() == 0,
    decreases s.len(),
{
    if s.len() > 0 {
        lemma_trim_start_all_underscores(s.drop_first());
    }
}

/// A name made only of characters that may not stand in a stem sanitises to nothing,
/// and its file takes the placeholder stem, never an empty one.
pub proof fn lemma_disallowed_name_gives_placeholder(name: Seq<char>)
    requires
        forall|i: int| 0 <= i < name.len() ==> !is_kept(#[trigger] name[i]),
    ensures
        sanitised(name).len() == 0,
        stem_of(name) == placeholder_stem(),
        stem_of(name).len() > 0,
{
    lemma_trim_start_all_underscores(replace_disallowed(name));
}

/// Whether `s` begins with `p`.
fn starts_with(s: &str, p: &str) -> (r: bool)
    ensures
        r == has_prefix(s@, p@),
{
    let n = s.unicode_len();
    let m = p.unicode_len();
    if m > n {
        return false;
    }
    let mut i: usize = 0;
    while i < m
        invariant
            n == s@.len(),
            m == p@.len(),
            m <= n,
            i <= m,
            forall|k: int| 0 <= k < i ==> s@[k] == p@[k],
        decreases m - i,
    {
        if s.get_char(i) != p.get_char(i) {
            assert(s@.subrange(0, m as int)[i as int] != p@[i as int]);
            return false;
        }
        i = i + 1;
    }
    assert(s@.subrange(0, m as int) =~= p@);
    true
}

/// Whether the URL begins with `http://` or `https://`.
pub fn is_valid_url(url: &str) -> (r: bool)
    ensures
        r == is_http_url(url@),
{
    starts_with(url, "http://") || starts_with(url, "https://")
}

} // verus!
