use std::path::PathBuf;

use vstd::prelude::*;

verus! {

/// Makes `url::Url` known to the verifier as an opaque type: a parsed URL
/// is only carried from [`parse_url`] to [`url_file_path`].
#[verifier::external_type_specification]
#[verifier::external_body]
pub struct ExUrl(url::Url);

/// `s` ends with `suffix`, character by character.
pub open spec fn ends_with(s: Seq<char>, suffix: Seq<char>) -> bool {
    suffix.len() <= s.len() && s.subrange(s.len() - suffix.len(), s.len() as int) == suffix
}

/// Whether `s` ends with `suffix`, compared character by character from the
/// end.
fn str_ends_with(s: &str, suffix: &str) -> (r: bool)
    ensures
        r == ends_with(s@, suffix@),
{
    let n = s.unicode_len();
    let m = suffix.unicode_len();
    if m > n {
        return false;
    }
    let start = n - m;
    let mut i: usize = 0;
    while i < m
        invariant
            n == s@.len(),
            m == suffix@.len(),
            m <= n,
            start == n - m,
            i <= m,
            forall|k: int| 0 <= k < i ==> s@[start + k] == suffix@[k],
        decreases m - i,
    {
        if s.get_char(start + i) != suffix.get_char(i) {
            assert(s@.subrange(start as int, n as int)[i as int] != suffix@[i as int]);
            return false;
        }
        i = i + 1;
    }
    assert(s@.subrange(start as int, n as int) =~= suffix@);
    true
}

/// Whether `url::Url::parse` accepts the text as an absolute URL.
pub uninterp spec fn url_parses(text: Seq<char>) -> bool;

/// Calls `url::Url::parse`; the contract states only whether parsing
/// succeeds, by the name [`url_parses`], a function of the text alone.
#[verifier::external_body]
fn parse_url(text: &str) -> (r: Option<url::Url>)
    ensures
        r is Some <==> url_parses(text@),
{
    url::Url::parse(text).ok()
}

/// Makes `std::path::PathBuf` known to the verifier as an opaque type: a
/// file path is only carried from [`url_file_path`] to the caller.
#[verifier::external_type_specification]
#[verifier::external_body]
pub struct ExPathBuf(std::path::PathBuf);

/// Calls `url::Url::to_file_path`. The outcome depends on the platform the
/// code runs on (and on an allocation), so nothing is stated of it.
#[verifier::external_body]
fn url_file_path(u: &url::Url) -> (r: Option<PathBuf>)
{
    u.to_file_path().ok()
}

/// The file suffixes of album art the bar shows.
pub open spec fn is_picture_url(url: Seq<char>) -> bool {
    ends_with(url, seq!['p', 'n', 'g']) || ends_with(url, seq!['j', 'p', 'e', 'g'])
        || ends_with(url, seq!['j', 'p', 'g'])
}

/// Whether the art URL names a PNG or JPEG picture.
pub fn has_picture_suffix(url: &str) -> (r: bool)
    ensures
        r == is_picture_url(url@),
{
    let png = "png";
    let jpeg = "jpeg";
    let jpg = "jpg";
    proof {
        reveal_strlit("png");
        reveal_strlit("jpeg");
        reveal_strlit("jpg");
        assert(png@ =~= seq!['p', 'n', 'g']);
        assert(jpeg@ =~= seq!['j', 'p', 'e', 'g']);
        assert(jpg@ =~= seq!['j', 'p', 'g']);
    }
    str_ends_with(url, png) || str_ends_with(url, jpeg) || str_ends_with(url, jpg)
}

/// The local file behind an art URL, when the URL parses and names a file.
fn art_file(url: &str) -> (r: Option<PathBuf>)
    ensures
        !url_parses(url@) ==> r is None,
{
    match parse_url(url) {
        Some(u) => url_file_path(&u),
        None => None,
    }
}

/// The album art of the bar given the file an art URL names (`file`): that
/// file when the URL has a PNG or JPEG suffix, else none.
pub fn bar_art_for(url: &str, file: Option<PathBuf>) -> (r: Option<PathBuf>)
    ensures
        r == if is_picture_url(url@) { file } else { None },
{
    if has_picture_suffix(url) {
        file
    } else {
        None
    }
}

/// The album art of the bar itself: nothing when the URL does not parse;
/// otherwise as [`bar_art_for`] says for the file the URL names. Which file
/// the URL names is up to the platform.
pub fn bar_art(url: &str) -> (r: Option<PathBuf>)
    ensures
        !is_picture_url(url@) ==> r is None,
        !url_parses(url@) ==> r is None,
{
    let file = art_file(url);
    bar_art_for(url, file)
}

/// What the side panel shows of the followed player: the art picture, if
/// any, and whether to show the title.
#[derive(Debug, PartialEq, Eq)]
pub struct PanelArt {
    pub image: Option<PathBuf>,
    pub show_title: bool,
}

/// The side panel's header given the file an art URL names (`file`): the
/// title shows whenever the URL names a file, the picture only when the URL
/// also has a PNG or JPEG suffix.
pub fn panel_art_for(url: &str, file: Option<PathBuf>) -> (r: PanelArt)
    ensures
        r.show_title == file is Some,
        r.image == if is_picture_url(url@) { file } else { None },
{
    let show_title = file.is_some();
    let image = if has_picture_suffix(url) { file } else { None };
    PanelArt { image, show_title }
}

/// The side panel's header for an art URL: nothing when the URL does not
/// parse; otherwise as [`panel_art_for`] says for the file the URL names.
/// Whether the URL names a file, and which, is up to the platform; given
/// that, the picture shows exactly when the title shows and the URL has a
/// PNG or JPEG suffix.
pub fn panel_art(url: &str) -> (r: PanelArt)
    ensures
        !url_parses(url@) ==> r.image is None && !r.show_title,
        r.image is Some <==> (r.show_title && is_picture_url(url@)),
{
    let file = art_file(url);
    panel_art_for(url, file)
}

} // verus!
