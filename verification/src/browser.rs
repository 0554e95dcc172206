//! The repository browser window: what it holds after a repository was
//! opened (or failed to open), and the text of its branch list and commit
//! table.

use vstd::prelude::*;
use vstd::utf8::{decode_utf8, encode_utf8, encode_utf8_decode_utf8, is_char_boundary};
use crate::error::{error_text, CoreError};
use crate::git::{BranchInfo, CommitInfo};

verus! {

broadcast use vstd::string::group_string_axioms;

/// The number of commits the browser reads from an opened repository.
pub const BROWSER_COMMIT_LIMIT: usize = 100;

/// The first `n` bytes of the UTF-8 encoding of `s` (all of them when it has
/// fewer), as text.
pub open spec fn byte_prefix_text(s: Seq<char>, n: int) -> Seq<char> {
    let bytes = encode_utf8(s);
    let k = if bytes.len() < n {
        bytes.len() as int
    } else {
        n
    };
    decode_utf8(bytes.take(k))
}

/// The UTF-8 encoding of `s` is no longer than a `usize` counts, as that of
/// every string held in memory is.
pub open spec fn encoding_fits(s: Seq<char>) -> bool {
    encode_utf8(s).len() <= usize::MAX
}

/// Cutting `s` after its first `n` bytes (or at its end, when it has fewer)
/// does not split a character.
pub open spec fn cut_at_boundary(s: Seq<char>, n: int) -> bool {
    let bytes = encode_utf8(s);
    is_char_boundary(bytes, if bytes.len() < n { bytes.len() as int } else { n })
}

/// The message as the commit table shows it: its first 50 bytes and `...`
/// when it is longer than 50 bytes, else all of it.
pub open spec fn message_cell_text(message: Seq<char>) -> Seq<char> {
    if encode_utf8(message).len() > 50 {
        byte_prefix_text(message, 50) + "..."@
    } else {
        message
    }
}

/// A branch as the branch list shows it: `* ` in front of the current branch.
pub open spec fn branch_label_text(b: BranchInfo) -> Seq<char> {
    if b.is_head {
        "* "@ + b.name@
    } else {
        b.name@
    }
}

/// Only the current branch is marked: its label is `* ` and its name; any
/// other branch, local or remote, is labelled with its name alone; whether a
/// branch is remote never changes its label.
pub proof fn lemma_branch_label_marks_head(b: BranchInfo)
    ensures
        b.is_head ==> branch_label_text(b) == "* "@ + b.name@,
        !b.is_head ==> branch_label_text(b) == b.name@,
        branch_label_text(b) == branch_label_text((BranchInfo { is_remote: !b.is_remote, ..b })),
{
}

/// The cells of a commit's row can be cut without splitting a character: the
/// hash at 8 bytes, the time at 10 and a message longer than 50 bytes at 50.
pub open spec fn row_cuttable(c: CommitInfo) -> bool {
    &&& encoding_fits(c.hash@)
    &&& encoding_fits(c.datetime@)
    &&& encoding_fits(c.message@)
    &&& cut_at_boundary(c.hash@, 8)
    &&& cut_at_boundary(c.datetime@, 10)
    &&& encode_utf8(c.message@).len() > 50 ==> cut_at_boundary(c.message@, 50)
}

/// The row of the commit table for `c`: short hash, author, date, message.
pub open spec fn row_text(c: CommitInfo) -> (Seq<char>, Seq<char>, Seq<char>, Seq<char>) {
    (
        byte_prefix_text(c.hash@, 8),
        c.author_name@,
        byte_prefix_text(c.datetime@, 10),
        message_cell_text(c.message@),
    )
}

/// The text of `s` up to its `n`-th byte (all of it when it is shorter).
pub fn byte_prefix(s: &str, n: usize) -> (r: String)
    requires
        encoding_fits(s@),
        cut_at_boundary(s@, n as int),
    ensures
        r@ == byte_prefix_text(s@, n as int),
{
    let len = s.len();
    let k = if len < n {
        len
    } else {
        n
    };
    let (head, _) = s.split_at(k);
    proof {
        encode_utf8_decode_utf8(head@);
        assert(encode_utf8(s@).take(k as int) =~= encode_utf8(s@).subrange(0, k as int));
    }
    String::from_str(head)
}

/// A message as the commit table shows it (see `message_cell_text`).
pub fn message_cell(message: &str) -> (r: String)
    requires
        encoding_fits(message@),
        encode_utf8(message@).len() > 50 ==> cut_at_boundary(message@, 50),
    ensures
        r@ == message_cell_text(message@),
{
    if message.len() > 50 {
        let head = byte_prefix(message, 50);
        head.concat("...")
    } else {
        String::from_str(message)
    }
}

/// A branch as the branch list shows it (see `branch_label_text`).
pub fn branch_label(b: &BranchInfo) -> (r: String)
    ensures
        r@ == branch_label_text(*b),
{
    if b.is_head {
        String::from_str("* ").concat(b.name.as_str())
    } else {
        b.name.clone()
    }
}

/// The row of the commit table for `c` (see `row_text`).
pub fn commit_row(c: &CommitInfo) -> (r: (String, String, String, String))
    requires
        row_cuttable(*c),
    ensures
        (r.0@, r.1@, r.2@, r.3@) == row_text(*c),
{
    let hash = byte_prefix(c.hash.as_str(), 8);
    let author = c.author_name.clone();
    let date = byte_prefix(c.datetime.as_str(), 10);
    let message = message_cell(c.message.as_str());
    (hash, author, date, message)
}

/// The browser window's state: the path last opened, whether a repository is
/// open, its commits and branches, and the status line.
#[derive(Debug)]
pub struct RepoBrowser {
    pub repo_path: String,
    pub is_open: bool,
    pub commits: Vec<CommitInfo>,
    pub branches: Vec<BranchInfo>,
    pub status_message: String,
}

impl Default for RepoBrowser {
    /// Nothing open, and a welcome line.
    fn default() -> (r: Self)
        ensures
            r.repo_path@.len() == 0,
            !r.is_open,
            r.commits@.len() == 0,
            r.branches@.len() == 0,
            r.status_message@ == "Welcome to Giter! Open a git repository to begin."@,
    {
        RepoBrowser {
            repo_path: String::new(),
            is_open: false,
            commits: Vec::new(),
            branches: Vec::new(),
            status_message: String::from_str("Welcome to Giter! Open a git repository to begin."),
        }
    }
}

impl RepoBrowser {
    /// The repository at `path` was opened; `branches` and `commits` are what
    /// reading them gave (`None` when reading failed, shown as none).
    pub fn open_succeeded(
        &mut self,
        path: &str,
        branches: Option<Vec<BranchInfo>>,
        commits: Option<Vec<CommitInfo>>,
    )
        ensures
            final(self).repo_path@ == path@,
            final(self).is_open,
            final(self).status_message@ == "Opened repository: "@ + path@,
            final(self).branches@ == match branches {
                Some(b) => b@,
                None => Seq::empty(),
            },
            final(self).commits@ == match commits {
                Some(c) => c@,
                None => Seq::empty(),
            },
    {
        self.repo_path = String::from_str(path);
        self.status_message = String::from_str("Opened repository: ").concat(path);
        self.branches = match branches {
            Some(b) => b,
            None => Vec::new(),
        };
        self.commits = match commits {
            Some(c) => c,
            None => Vec::new(),
        };
        self.is_open = true;
    }

    /// Opening the repository at `path` failed with `error`: nothing is open
    /// and the status line says why.
    pub fn open_failed(&mut self, path: &str, error: &CoreError)
        ensures
            final(self).repo_path@ == path@,
            !final(self).is_open,
            final(self).status_message@ == "Failed to open repository: "@ + error_text(*error),
            final(self).commits@.len() == 0,
            final(self).branches@.len() == 0,
    {
        self.repo_path = String::from_str(path);
        let reason = error.message();
        self.status_message = String::from_str("Failed to open repository: ").concat(reason.as_str());
        self.is_open = false;
        self.commits = Vec::new();
        self.branches = Vec::new();
    }

    /// Whether the commit panel shows the status line in place of the table:
    /// there is a status line and no repository is open.
    pub fn shows_status(&self) -> (r: bool)
        ensures
            r == (self.status_message@.len() > 0 && !self.is_open),
    {
        !self.status_message.as_str().is_empty() && !self.is_open
    }

    /// The branch list, one label per branch in order.
    pub fn branch_labels(&self) -> (r: Vec<String>)
        ensures
            r@.len() == self.branches@.len(),
            forall|i: int| 0 <= i < r@.len() ==> (#[trigger] r@[i])@ == branch_label_text(self.branches@[i]),
    {
        let mut r: Vec<String> = Vec::new();
        let mut i: usize = 0;
        while i < self.branches.len()
            invariant
                i <= self.branches@.len(),
                r@.len() == i,
                forall|t: int| 0 <= t < i ==> (#[trigger] r@[t])@ == branch_label_text(self.branches@[t]),
            decreases self.branches.len() - i,
        {
            let label = branch_label(&self.branches[i]);
            r.push(label);
            i += 1;
        }
        r
    }

    /// The commit table, one row per commit in order.
    pub fn commit_rows(&self) -> (r: Vec<(String, String, String, String)>)
        requires
            forall|i: int| 0 <= i < self.commits@.len() ==> row_cuttable(#[trigger] self.commits@[i]),
        ensures
            r@.len() == self.commits@.len(),
            forall|i: int|
                0 <= i < r@.len() ==> ((#[trigger] r@[i]).0@, r@[i].1@, r@[i].2@, r@[i].3@) == row_text(
                    self.commits@[i],
                ),
    {
        let mut r: Vec<(String, String, String, String)> = Vec::new();
        let mut i: usize = 0;
        while i < self.commits.len()
            invariant
                i <= self.commits@.len(),
                forall|t: int| 0 <= t < self.commits@.len() ==> row_cuttable(#[trigger] self.commits@[t]),
                r@.len() == i,
                forall|t: int|
                    0 <= t < i ==> ((#[trigger] r@[t]).0@, r@[t].1@, r@[t].2@, r@[t].3@) == row_text(
                        self.commits@[t],
                    ),
            decreases self.commits.len() - i,
        {
            let row = commit_row(&self.commits[i]);
            r.push(row);
            i += 1;
        }
        r
    }
}

} // verus!
