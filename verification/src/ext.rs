//! Extensions of strings, paths and editor positions.
use crate::config::PositionEncoding;
use crate::text::{blen, clen, collect_chars, str_len};
use tower_lsp::lsp_types::Url;
use vstd::prelude::*;

verus! {

/// A URL; the library only carries it through.
#[verifier::external_type_specification]
#[verifier::external_body]
pub struct ExUrl(Url);

/// Whether a path could be absolute on some platform: it starts with a separator
/// (`/` or `\`) or with a drive prefix (`C:`). Other paths are relative everywhere.
pub open spec fn rooted(p: Seq<char>) -> bool {
    (p.len() >= 1 && (p[0] == '/' || p[0] == '\\')) || (p.len() >= 2 && p[1] == ':')
}

/// `Url::from_file_path`: the `file://` URL of an absolute path. Relative paths
/// are refused on every platform; which rooted paths are absolute depends on the
/// platform and is left unsaid.
#[verifier::external_body]
fn url_from_file_path(path: &str) -> (r: Result<Url, ()>)
    ensures
        !rooted(path@) ==> r is Err,
{
    Url::from_file_path(path)
}

/// Access to the local file system's paths.
pub struct LocalFs {}

/// Why a path could not be turned into a URI.
#[derive(Debug, Clone, Copy, PartialEq, Eq, Structural)]
pub enum FsPathToUriError {
    /// The path is not absolute.
    NotAbsolute,
}

impl FsPathToUriError {
    /// The error's message.
    pub fn message(&self) -> (r: &'static str)
        ensures
            r@ == "cannot convert to URI since path is not absolute"@,
    {
        "cannot convert to URI since path is not absolute"
    }
}

impl LocalFs {
    /// The `file://` URI of a path; `Err` when the path is not absolute.
    pub fn path_to_uri(path: &str) -> (r: Result<Url, FsPathToUriError>)
        ensures
            !rooted(path@) ==> r == Err::<Url, FsPathToUriError>(FsPathToUriError::NotAbsolute),
            r is Err ==> r == Err::<Url, FsPathToUriError>(FsPathToUriError::NotAbsolute),
    {
        match url_from_file_path(path) {
            Ok(u) => Ok(u),
            Err(()) => Err(FsPathToUriError::NotAbsolute),
        }
    }
}

/// Number of UTF-16 code units that encode `c`.
pub open spec fn utf16_units(c: char) -> nat {
    if (c as u32) < 0x10000 {
        1
    } else {
        2
    }
}

/// Number of UTF-16 code units that encode `s`.
pub open spec fn utf16_len(s: Seq<char>) -> nat
    decreases s.len(),
{
    if s.len() == 0 {
        0
    } else {
        utf16_len(s.drop_last()) + utf16_units(s.last())
    }
}

/// The length of `s` in the units of `encoding`.
pub open spec fn encoded_len(s: Seq<char>, encoding: PositionEncoding) -> nat {
    match encoding {
        PositionEncoding::Utf8 => blen(s),
        PositionEncoding::Utf16 => utf16_len(s),
    }
}

/// A character takes at least as many UTF-8 bytes as UTF-16 units.
pub proof fn lemma_utf16_le_utf8(s: Seq<char>)
    ensures
        utf16_len(s) <= blen(s),
    decreases s.len(),
{
    if s.len() > 0 {
        lemma_utf16_le_utf8(s.drop_last());
    }
}

pub trait StrExt {
    /// The length of the string in the units of `encoding`.
    fn encoded_len(&self, encoding: PositionEncoding) -> usize;
}

impl StrExt for str {
    fn encoded_len(&self, encoding: PositionEncoding) -> (r: usize)
        ensures
            r == encoded_len(self@, encoding),
    {
        match encoding {
            PositionEncoding::Utf8 => str_len(self),
            PositionEncoding::Utf16 => {
                let total = str_len(self);
                let v = collect_chars(self);
                let mut sum: usize = 0;
                let mut i: usize = 0;
                proof {
                    lemma_utf16_le_utf8(self@);
                }
                while i < v.len()
                    invariant
                        v@ == self@,
                        i <= v@.len(),
                        total == blen(self@),
                        total <= isize::MAX,
                        utf16_len(self@) <= blen(self@),
                        sum == utf16_len(v@.take(i as int)),
                    decreases v@.len() - i,
                {
                    proof {
                        assert(v@.take(i + 1).drop_last() =~= v@.take(i as int));
                        lemma_utf16_prefix(v@, i + 1);
                    }
                    let c = v[i];
                    let units: usize = if (c as u32) < 0x10000 {
                        1
                    } else {
                        2
                    };
                    sum = sum + units;
                    i = i + 1;
                }
                proof {
                    assert(v@.take(v@.len() as int) =~= v@);
                }
                sum
            },
        }
    }
}

/// The code units of a prefix are at most those of the whole.
proof fn lemma_utf16_prefix(s: Seq<char>, n: int)
    requires
        0 <= n <= s.len(),
    ensures
        utf16_len(s.take(n)) <= utf16_len(s),
    decreases s.len() - n,
{
    if n < s.len() {
        lemma_utf16_prefix(s, n + 1);
        assert(s.take(n + 1).drop_last() =~= s.take(n));
    } else {
        assert(s.take(n) =~= s);
    }
}

/// A path that is a bare file name on every platform: not empty, no separator
/// (`/`, `\`), no drive (`:`), and not `.` or `..`.
pub open spec fn simple_file_name(p: Seq<char>) -> bool {
    &&& p.len() > 0
    &&& forall|i: int| 0 <= i < p.len() ==> #[trigger] p[i] != '/' && p[i] != '\\' && p[i] != ':'
    &&& !(p =~= seq!['.'])
    &&& !(p =~= seq!['.', '.'])
}

/// The extension of a file name: what follows its last `.`, unless it has no `.`
/// or its only `.` is the first character.
pub open spec fn name_extension(p: Seq<char>) -> Option<Seq<char>> {
    if exists|i: int| 0 < i < p.len() && p[i] == '.' && forall|k: int| i < k < p.len() ==> p[k] != '.' {
        let i = choose|i: int| 0 < i < p.len() && p[i] == '.' && forall|k: int| i < k < p.len() ==> p[k] != '.';
        Some(p.subrange(i + 1, p.len() as int))
    } else {
        None
    }
}

/// `Path::extension`: the extension of the file name of a path, if it has one.
/// For a bare file name that is what follows its last `.` (none when it has no
/// `.`, or only a leading one); how other paths split into components depends on
/// the platform and is left unsaid, but an extension never holds a `/`.
#[verifier::external_body]
fn path_extension(path: &str) -> (r: Option<String>)
    ensures
        r matches Some(e) ==> !e@.contains('/'),
        simple_file_name(path@) ==> match r {
            Some(e) => name_extension(path@) == Some(e@),
            None => name_extension(path@) is None,
        },
{
    let ext = std::path::Path::new(path).extension()?;
    ext.to_str().map(|s| s.to_owned())
}

/// Whether an extension is that of this server's own files.
pub fn is_csslancer_extension(ext: Option<&str>) -> (r: bool)
    ensures
        r == (ext matches Some(e) && e@ == "csslancer"@),
{
    match ext {
        Some(e) => {
            let v = collect_chars(e);
            let r = crate::text::eq_chars(&v, &['c', 's', 's', 'l', 'a', 'n', 'c', 'e', 'r']);
            proof {
                reveal_strlit("csslancer");
                assert("csslancer"@ =~= seq!['c', 's', 's', 'l', 'a', 'n', 'c', 'e', 'r']);
            }
            r
        },
        None => false,
    }
}

pub trait PathExt {
    /// Whether the path names a file of this server's own kind.
    fn is_csslancer(&self) -> bool;
}

impl PathExt for str {
    fn is_csslancer(&self) -> (r: bool)
        ensures
            simple_file_name(self@) ==> (r <==> name_extension(self@) == Some("csslancer"@)),
    {
        let ext = path_extension(self);
        match ext {
            Some(e) => is_csslancer_extension(Some(e.as_str())),
            None => is_csslancer_extension(None),
        }
    }
}

/// A position in a text document: a line and a character offset in it, both
/// zero-based.
#[derive(Debug, Clone, Copy, PartialEq, Eq, Structural, Default)]
pub struct Position {
    pub line: u32,
    pub character: u32,
}

/// The distance between two positions, as semantic tokens count it.
#[derive(Debug, Clone, Copy, PartialEq, Eq, Structural, Default)]
pub struct PositionDelta {
    pub delta_line: u32,
    pub delta_start: u32,
}

pub trait PositionExt {
    /// Whether `to` does not come before `self`, so that a delta exists.
    spec fn reaches(&self, to: &Self) -> bool;

    /// The delta from `self` to `to`.
    fn delta(&self, to: &Self) -> PositionDelta
        requires
            self.reaches(to),
    ;
}

/// Whether `to` comes at or after `from`.
pub open spec fn not_before(from: Position, to: Position) -> bool {
    to.line > from.line || (to.line == from.line && to.character >= from.character)
}

impl PositionExt for Position {
    open spec fn reaches(&self, to: &Self) -> bool {
        not_before(*self, *to)
    }

    /// Calculates the delta from `self` to `to`. This is in the `SemanticToken`
    /// sense, so the delta's `character` is relative to `self`'s `character` iff
    /// `self` and `to` are on the same line. Otherwise, it's relative to the start
    /// of the line `to` is on.
    fn delta(&self, to: &Self) -> (r: PositionDelta)
        ensures
            r.delta_line == to.line - self.line,
            r.delta_start == (if to.line == self.line {
                to.character - self.character
            } else {
                to.character as int
            }),
    {
        let line_delta = to.line - self.line;
        let char_delta = if line_delta == 0 {
            to.character - self.character
        } else {
            to.character
        };
        PositionDelta { delta_line: line_delta, delta_start: char_delta }
    }
}

} // verus!
