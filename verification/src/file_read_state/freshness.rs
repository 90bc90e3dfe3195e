//! When a file still is what the last read of it showed.

use crate::text::to_chars;
use vstd::prelude::*;

verus! {

/// What is known of the last read of a file.
#[derive(Debug, Clone, Copy, PartialEq, Eq)]
pub struct FileReadFreshnessFacts<'a> {
    pub content: &'a str,
    pub timestamp_ms: u64,
    pub is_full_file_read: bool,
}

/// `content` without one final line feed, if it ends in one.
pub open spec fn without_final_newline(content: Seq<char>) -> Seq<char> {
    if content.len() > 0 && content.last() == '\n' {
        content.drop_last()
    } else {
        content
    }
}

/// The same lines: a read may lose the final line feed, so it does not count.
pub open spec fn same_content(left: Seq<char>, right: Seq<char>) -> bool {
    without_final_newline(left) == without_final_newline(right)
}

impl FileReadFreshnessFacts<'_> {
    /// The whole file was read, and it holds the same content now.
    pub open spec fn content_matches(self, current_content: Seq<char>) -> bool {
        self.is_full_file_read && same_content(self.content@, current_content)
    }

    /// The file has not been written since it was read, or it still holds what was read.
    pub open spec fn are_fresh(
        self,
        current_content: Seq<char>,
        current_mtime_ms: Option<u64>,
    ) -> bool {
        ||| current_mtime_ms matches Some(mtime_ms) && mtime_ms <= self.timestamp_ms
        ||| self.content_matches(current_content)
    }
}

/// How many characters come before a final line feed.
fn content_len(content: &Vec<char>) -> (len: usize)
    ensures
        len == without_final_newline(content@).len(),
        without_final_newline(content@) == content@.take(len as int),
{
    let len = content.len();
    assert(content@.take(len as int) =~= content@);
    if len > 0 && content[len - 1] == '\n' {
        assert(content@.take(len - 1) =~= content@.drop_last());
        len - 1
    } else {
        len
    }
}

fn is_same_content(left: &str, right: &str) -> (same: bool)
    ensures
        same == same_content(left@, right@),
{
    let a = to_chars(left);
    let b = to_chars(right);
    let len = content_len(&a);
    if len != content_len(&b) {
        return false;
    }
    let mut i: usize = 0;
    while i < len
        invariant
            i <= len,
            len <= a.len(),
            len <= b.len(),
            without_final_newline(left@) == a@.take(len as int),
            without_final_newline(right@) == b@.take(len as int),
            forall|j: int| 0 <= j < i ==> a[j] == b[j],
        decreases len - i,
    {
        if a[i] != b[i] {
            assert(a@.take(len as int)[i as int] != b@.take(len as int)[i as int]);
            return false;
        }
        i += 1;
    }
    assert(a@.take(len as int) =~= b@.take(len as int));
    true
}

/// Whether the whole file was read and holds the same content now.
pub fn file_read_facts_content_matches(
    facts: FileReadFreshnessFacts<'_>,
    current_content: &str,
) -> (matching: bool)
    ensures
        matching == facts.content_matches(current_content@),
{
    facts.is_full_file_read && is_same_content(facts.content, current_content)
}

/// Whether the file still is what was read, as far as its modification time and its
/// content tell.
pub fn file_read_facts_are_fresh(
    facts: FileReadFreshnessFacts<'_>,
    current_content: &str,
    current_mtime_ms: Option<u64>,
) -> (fresh: bool)
    ensures
        fresh == facts.are_fresh(current_content@, current_mtime_ms),
{
    if let Some(mtime_ms) = current_mtime_ms {
        if mtime_ms <= facts.timestamp_ms {
            return true;
        }
    }
    file_read_facts_content_matches(facts, current_content)
}

/// Contents that differ by one final line feed alone, on either side, are the same.
pub proof fn lemma_final_newline_does_not_count(content: Seq<char>)
    requires
        content.len() == 0 || content.last() != '\n',
    ensures
        same_content(content, content.push('\n')),
        same_content(content.push('\n'), content),
{
    assert(content.push('\n').drop_last() =~= content);
}

/// Having the same content is an equivalence.
pub proof fn lemma_same_content_is_equivalence(a: Seq<char>, b: Seq<char>, c: Seq<char>)
    ensures
        same_content(a, a),
        same_content(a, b) ==> same_content(b, a),
        same_content(a, b) && same_content(b, c) ==> same_content(a, c),
{
}

} // verus!
