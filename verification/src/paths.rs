//! How a machine writes paths.
use vstd::prelude::*;

use crate::text;

verus! {

/// What stands between the names of a path.
#[derive(Clone, Copy, Debug, PartialEq, Eq, Structural)]
pub enum PathStyle {
    /// Slashes.
    Slash,
    /// Slashes and backslashes; a path can begin with the letter of a drive and a colon.
    Backslash,
}

/// Whether a backslash stands between the names of a path on this machine: what
/// `std::path::is_separator` says of it. The answer is the machine's, so nothing is claimed of it.
#[verifier::external_body]
fn backslash_separates() -> (r: bool) {
    std::path::is_separator('\\')
}

impl PathStyle {
    /// The style of a machine, by whether a backslash stands between names there.
    pub fn by_backslash(separates: bool) -> (r: PathStyle)
        ensures
            r == if separates {
                PathStyle::Backslash
            } else {
                PathStyle::Slash
            },
    {
        if separates {
            PathStyle::Backslash
        } else {
            PathStyle::Slash
        }
    }

    /// The style of this machine, which only the machine can tell.
    pub fn of_this_machine() -> (r: PathStyle) {
        PathStyle::by_backslash(backslash_separates())
    }

    /// Whether a character stands between the names of a path.
    pub open spec fn separates(self, c: char) -> bool {
        c == '/' || (self is Backslash && c == '\\')
    }

    /// A path with slashes alone between its names.
    pub open spec fn slashed(self, path: Seq<char>) -> Seq<char> {
        path.map_values(
            |c: char|
                if self.separates(c) {
                    '/'
                } else {
                    c
                },
        )
    }

    /// Whether a path begins with a drive.
    pub open spec fn has_drive(self, path: Seq<char>) -> bool {
        self is Backslash && path.len() >= 2 && is_letter(path[0]) && path[1] == ':'
    }

    /// Whether a path begins with two separators, behind which the name of a share or a device
    /// stands.
    pub open spec fn has_share(self, path: Seq<char>) -> bool {
        self is Backslash && path.len() >= 2 && self.separates(path[0]) && self.separates(path[1])
    }

    /// Whether a path is to be taken by the letter, as its beginning says.
    pub open spec fn is_verbatim(self, path: Seq<char>) -> bool {
        self is Backslash && path.len() >= 4 && path.take(4) == seq!['\\', '\\', '?', '\\']
    }

    /// Whether a character stands between the names of a path.
    pub fn is_separator(self, c: char) -> (r: bool)
        ensures
            r == self.separates(c),
    {
        c == '/' || (self == PathStyle::Backslash && c == '\\')
    }

    /// A path with slashes alone between its names.
    pub fn with_slashes(self, path: &str) -> (r: String)
        ensures
            r@ == self.slashed(path@),
    {
        let mut chars = text::characters(path);
        let mut i: usize = 0;
        while i < chars.len()
            invariant
                i <= chars.len(),
                chars.len() == path@.len(),
                forall|j: int| 0 <= j < i ==> #[trigger] chars@[j] == self.slashed(path@)[j],
                forall|j: int| i <= j < chars.len() ==> #[trigger] chars@[j] == path@[j],
            decreases chars.len() - i,
        {
            if self.is_separator(chars[i]) {
                chars.set(i, '/');
            }
            i = i + 1;
        }
        assert(chars@ =~= self.slashed(path@));
        assert(chars@.subrange(0, chars@.len() as int) =~= chars@);
        text::text_between(&chars, 0, chars.len())
    }

    /// Whether a path begins with a drive.
    pub fn begins_with_drive(self, path: &Vec<char>) -> (r: bool)
        ensures
            r == self.has_drive(path@),
    {
        self == PathStyle::Backslash && path.len() >= 2 && (('a' <= path[0] && path[0] <= 'z') || (
        'A' <= path[0] && path[0] <= 'Z')) && path[1] == ':'
    }

    /// Whether a path begins with two separators.
    pub fn begins_with_share(self, path: &Vec<char>) -> (r: bool)
        ensures
            r == self.has_share(path@),
    {
        self == PathStyle::Backslash && path.len() >= 2 && self.is_separator(path[0])
            && self.is_separator(path[1])
    }

    /// Whether a path is to be taken by the letter.
    pub fn begins_verbatim(self, path: &Vec<char>) -> (r: bool)
        ensures
            r == self.is_verbatim(path@),
    {
        let r: bool = self == PathStyle::Backslash && path.len() >= 4 && path[0] == '\\' && path[1]
            == '\\' && path[2] == '?' && path[3] == '\\';
        proof {
            if r {
                assert(path@.take(4) =~= seq!['\\', '\\', '?', '\\']);
            } else if self.is_verbatim(path@) {
                let head = path@.take(4);
                assert(head[0] == path@[0] && head[1] == path@[1] && head[2] == path@[2] && head[3]
                    == path@[3]);
            }
        }
        r
    }
}

/// Whether a character is a letter that can name a drive.
pub open spec fn is_letter(c: char) -> bool {
    ('a' <= c && c <= 'z') || ('A' <= c && c <= 'Z')
}

} // verus!
