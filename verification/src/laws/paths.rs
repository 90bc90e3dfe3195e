//! Promises about which commits and paths are accepted.

use crate::error::ErrorView;
use crate::round_replay::paths;
use crate::round_replay::paths::PathStyle;
use vstd::prelude::*;

verus! {

/// The pieces with a slash between each two.
pub open spec fn joined(pieces: Seq<Seq<char>>) -> Seq<char>
    decreases pieces.len(),
{
    if pieces.len() == 0 {
        Seq::empty()
    } else if pieces.len() == 1 {
        pieces[0]
    } else {
        pieces[0] + seq!['/'] + joined(pieces.drop_first())
    }
}

/// The pieces of a path between its slashes.
pub open spec fn pieces_of(path: Seq<char>) -> Seq<Seq<char>>
    decreases path.len(),
{
    if path.len() == 0 {
        seq![Seq::empty()]
    } else {
        let rest = pieces_of(path.drop_first());
        if path[0] == '/' {
            seq![Seq::<char>::empty()] + rest
        } else {
            seq![seq![path[0]] + rest[0]] + rest.drop_first()
        }
    }
}

/// Every path is its pieces with slashes between them, and no piece holds a slash.
pub proof fn lemma_every_path_has_pieces(path: Seq<char>)
    ensures
        pieces_of(path).len() > 0,
        joined(pieces_of(path)) == path,
        forall|i: int| 0 <= i < pieces_of(path).len() ==> !(#[trigger] pieces_of(path)[i]).contains('/'),
    decreases path.len(),
{
    let pieces = pieces_of(path);
    if path.len() == 0 {
        assert(joined(pieces) =~= path);
    } else {
        let rest = pieces_of(path.drop_first());
        lemma_every_path_has_pieces(path.drop_first());
        assert(path =~= seq![path[0]] + path.drop_first());
        if path[0] == '/' {
            assert(pieces.drop_first() =~= rest);
            assert(joined(pieces) =~= path);
            assert forall|i: int| 0 <= i < pieces.len() implies !(#[trigger] pieces[i]).contains(
                '/',
            ) by {
                if i > 0 {
                    assert(pieces[i] == rest[i - 1]);
                }
            }
        } else {
            assert(pieces.drop_first() =~= rest.drop_first());
            assert(joined(pieces) =~= path);
            assert forall|i: int| 0 <= i < pieces.len() implies !(#[trigger] pieces[i]).contains(
                '/',
            ) by {
                if i > 0 {
                    assert(pieces[i] == rest[i]);
                } else {
                    assert(!rest[0].contains('/'));
                    assert forall|k: int| 0 <= k < pieces[0].len() implies pieces[0][k] != '/' by {
                        if k > 0 {
                            assert(pieces[0][k] == rest[0][k - 1]);
                            assert(rest[0].contains(rest[0][k - 1]));
                        }
                    }
                }
            }
        }
    }
}

/// Where `..` stands as a component: the first piece, or a component of what follows it.
proof fn lemma_parent_component_after_piece(piece: Seq<char>, rest: Seq<char>, start: int)
    requires
        !piece.contains('/'),
    ensures
        paths::is_parent_component(PathStyle::Unix, piece + seq!['/'] + rest, start) <==> ((start
            == 0 && piece == seq!['.', '.']) || (start > piece.len()
            && paths::is_parent_component(PathStyle::Unix, rest, start - piece.len() - 1))),
{
    let path = piece + seq!['/'] + rest;
    let len = piece.len() as int;
    assert(path[len] == '/');
    assert forall|i: int| 0 <= i < len implies path[i] == piece[i] && piece[i] != '/' by {
        assert(piece.contains(piece[i]));
    }
    assert forall|i: int| len < i < path.len() implies path[i] == rest[i - len - 1] by {}
    if paths::is_parent_component(PathStyle::Unix, path, start) {
        assert(path[start] == '.' && path[start + 1] == '.');
        assert(start != len && start + 1 != len);
        if start < len {
            assert(start + 1 < len);
            if start > 0 {
                assert(PathStyle::Unix.separates(path[start - 1]));
                assert(path[start - 1] == piece[start - 1]);
            }
            assert(start == 0);
            if len > 2 {
                assert(PathStyle::Unix.separates(path[2]));
                assert(path[2] == piece[2]);
            }
            assert(piece =~= seq!['.', '.']);
        } else {
            let shifted = start - len - 1;
            assert(rest[shifted] == path[start]);
            assert(rest[shifted + 1] == path[start + 1]);
            if shifted > 0 {
                assert(rest[shifted - 1] == path[start - 1]);
            }
            if shifted + 2 < rest.len() {
                assert(rest[shifted + 2] == path[start + 2]);
            }
            assert(paths::is_parent_component(PathStyle::Unix, rest, shifted));
        }
    }
    if start == 0 && piece == seq!['.', '.'] {
        assert(path[0] == '.' && path[1] == '.');
        assert(paths::is_parent_component(PathStyle::Unix, path, 0));
    }
    if start > len && paths::is_parent_component(PathStyle::Unix, rest, start - len - 1) {
        let shifted = start - len - 1;
        assert(rest[shifted] == path[start]);
        assert(rest[shifted + 1] == path[start + 1]);
        if shifted > 0 {
            assert(rest[shifted - 1] == path[start - 1]);
        }
        if shifted + 2 < rest.len() {
            assert(rest[shifted + 2] == path[start + 2]);
        }
        assert(paths::is_parent_component(PathStyle::Unix, path, start));
    }
}

proof fn lemma_parent_component_of_one_piece(piece: Seq<char>, start: int)
    requires
        !piece.contains('/'),
    ensures
        paths::is_parent_component(PathStyle::Unix, piece, start) <==> (start == 0 && piece
            == seq!['.', '.']),
{
    if paths::is_parent_component(PathStyle::Unix, piece, start) {
        if start > 0 {
            assert(piece.contains(piece[start - 1]));
        }
        if piece.len() > 2 {
            assert(piece.contains(piece[2]));
        }
        assert(piece =~= seq!['.', '.']);
    }
}

proof fn lemma_parent_component_is_a_piece(pieces: Seq<Seq<char>>)
    requires
        pieces.len() > 0,
        forall|i: int| 0 <= i < pieces.len() ==> !(#[trigger] pieces[i]).contains('/'),
    ensures
        (exists|start: int|
            #[trigger] paths::is_parent_component(PathStyle::Unix, joined(pieces), start)) <==> (
        exists|i: int| 0 <= i < pieces.len() && (#[trigger] pieces[i]) == seq!['.', '.']),
    decreases pieces.len(),
{
    let path = joined(pieces);
    assert(!pieces[0].contains('/'));
    if pieces.len() == 1 {
        assert forall|start: int| #[trigger]
            paths::is_parent_component(PathStyle::Unix, path, start) <==> (start == 0 && pieces[0]
                == seq!['.', '.']) by {
            lemma_parent_component_of_one_piece(pieces[0], start);
        }
        if pieces[0] == seq!['.', '.'] {
            assert(paths::is_parent_component(PathStyle::Unix, path, 0));
        }
    } else {
        let others = pieces.drop_first();
        let rest = joined(others);
        assert forall|i: int| 0 <= i < others.len() implies !(#[trigger] others[i]).contains('/') by {
            assert(others[i] == pieces[i + 1]);
        }
        lemma_parent_component_is_a_piece(others);
        let len = pieces[0].len() as int;
        assert forall|start: int| #[trigger]
            paths::is_parent_component(PathStyle::Unix, path, start) <==> ((start == 0 && pieces[0]
                == seq!['.', '.']) || (start > len && paths::is_parent_component(
                PathStyle::Unix,
                rest,
                start - len - 1,
            ))) by {
            lemma_parent_component_after_piece(pieces[0], rest, start);
        }
        if exists|i: int| 0 <= i < pieces.len() && (#[trigger] pieces[i]) == seq!['.', '.'] {
            let i = choose|i: int|
                0 <= i < pieces.len() && (#[trigger] pieces[i]) == seq!['.', '.'];
            if i == 0 {
                assert(paths::is_parent_component(PathStyle::Unix, path, 0));
            } else {
                assert(others[i - 1] == seq!['.', '.']);
                let start = choose|start: int| #[trigger]
                    paths::is_parent_component(PathStyle::Unix, rest, start);
                assert(start + len + 1 > len);
                assert(paths::is_parent_component(PathStyle::Unix, path, start + len + 1));
            }
        }
        if exists|start: int| #[trigger]
            paths::is_parent_component(PathStyle::Unix, path, start) {
            let start = choose|start: int| #[trigger]
                paths::is_parent_component(PathStyle::Unix, path, start);
            if start == 0 && pieces[0] == seq!['.', '.'] {
            } else {
                assert(paths::is_parent_component(PathStyle::Unix, rest, start - len - 1));
                let i = choose|i: int|
                    0 <= i < others.len() && (#[trigger] others[i]) == seq!['.', '.'];
                assert(pieces[i + 1] == seq!['.', '.']);
            }
        }
    }
}

/// Where `/` separates, a path is accepted exactly if its first piece is a name other
/// than `.` and no piece is `..`. So whatever is joined from names is accepted, however
/// long, and whatever climbs up or starts at the root is refused.
pub proof fn lemma_accepted_paths_are_made_of_names(pieces: Seq<Seq<char>>)
    requires
        pieces.len() > 0,
        forall|i: int| 0 <= i < pieces.len() ==> !(#[trigger] pieces[i]).contains('/'),
    ensures
        paths::workspace_path_error(PathStyle::Unix, joined(pieces)) is None <==> {
            &&& pieces[0].len() > 0
            &&& pieces[0] != seq!['.']
            &&& forall|i: int| 0 <= i < pieces.len() ==> (#[trigger] pieces[i]) != seq!['.', '.']
        },
{
    let path = joined(pieces);
    lemma_parent_component_is_a_piece(pieces);
    let first = pieces[0];
    assert(!first.contains('/'));
    if first.len() > 0 {
        assert(path[0] == first[0]);
        assert(first.contains(first[0]));
        assert(path[0] != '/');
        if paths::begins_in_current_dir(PathStyle::Unix, path) {
            if first.len() > 1 {
                assert(path[1] == first[1]);
                assert(first.contains(first[1]));
            }
            assert(first =~= seq!['.']);
        }
        if first == seq!['.'] {
            assert(paths::begins_in_current_dir(PathStyle::Unix, path));
        }
    } else if pieces.len() > 1 {
        assert(path[0] == '/');
    }
    if forall|i: int| 0 <= i < pieces.len() ==> (#[trigger] pieces[i]) != seq!['.', '.'] {
        assert forall|start: int| !(#[trigger] paths::is_parent_component(
            PathStyle::Unix,
            path,
            start,
        )) by {}
    }
}

/// On Windows a path is accepted exactly if it names no drive and would be accepted with
/// slashes in place of its backslashes.
pub proof fn lemma_windows_paths_are_read_with_slashes(path: Seq<char>)
    ensures
        paths::workspace_path_error(PathStyle::Windows, path) is None <==> {
            &&& paths::workspace_path_error(
                PathStyle::Unix,
                Seq::new(
                    path.len(),
                    |i: int|
                        if path[i] == '\\' {
                            '/'
                        } else {
                            path[i]
                        },
                ),
            ) is None
            &&& !(path.len() >= 2 && ('a' <= path[0] <= 'z' || 'A' <= path[0] <= 'Z') && path[1]
                == ':')
        },
{
    let slashed = Seq::new(
        path.len(),
        |i: int|
            if path[i] == '\\' {
                '/'
            } else {
                path[i]
            },
    );
    assert forall|i: int| 0 <= i < path.len() implies PathStyle::Windows.separates(
        #[trigger] path[i],
    ) == PathStyle::Unix.separates(slashed[i]) by {}
    assert forall|start: int, end: int| #[trigger]
        paths::is_component(PathStyle::Windows, path, start, end) == paths::is_component(
            PathStyle::Unix,
            slashed,
            start,
            end,
        ) by {
        if 0 <= start < end <= path.len() {
            if forall|i: int|
                start <= i < end ==> !PathStyle::Unix.separates(#[trigger] slashed[i]) {
                assert forall|i: int| start <= i < end implies !PathStyle::Windows.separates(
                    #[trigger] path[i],
                ) by {
                    assert(!PathStyle::Unix.separates(slashed[i]));
                }
            }
            if forall|i: int|
                start <= i < end ==> !PathStyle::Windows.separates(#[trigger] path[i]) {
                assert forall|i: int| start <= i < end implies !PathStyle::Unix.separates(
                    #[trigger] slashed[i],
                ) by {
                    assert(!PathStyle::Windows.separates(path[i]));
                }
            }
        }
    }
    assert forall|start: int| #[trigger]
        paths::is_parent_component(PathStyle::Windows, path, start) == paths::is_parent_component(
            PathStyle::Unix,
            slashed,
            start,
        ) by {
        assert(paths::is_component(PathStyle::Windows, path, start, start + 2)
            == paths::is_component(PathStyle::Unix, slashed, start, start + 2));
    }
    assert(paths::is_component(PathStyle::Windows, path, 0, 1) == paths::is_component(
        PathStyle::Unix,
        slashed,
        0,
        1,
    ));
    assert(paths::begins_in_current_dir(PathStyle::Windows, path) == paths::begins_in_current_dir(
        PathStyle::Unix,
        slashed,
    ));
    if paths::is_plain_relative_path(PathStyle::Windows, path) {
        assert forall|start: int| !(#[trigger] paths::is_parent_component(
            PathStyle::Unix,
            slashed,
            start,
        )) by {
            assert(!paths::is_parent_component(PathStyle::Windows, path, start));
        }
    }
    if paths::is_plain_relative_path(PathStyle::Unix, slashed) {
        assert forall|start: int| !(#[trigger] paths::is_parent_component(
            PathStyle::Windows,
            path,
            start,
        )) by {
            assert(!paths::is_parent_component(PathStyle::Unix, slashed, start));
        }
    }
}

/// An artifact path is accepted exactly if it is an accepted path and something behind
/// one of the two artifact directories.
pub proof fn lemma_accepted_artifact_paths(style: PathStyle, path: Seq<char>)
    ensures
        paths::artifact_path_error(style, path) is None <==> {
            &&& paths::workspace_path_error(style, path) is None
            &&& (exists|name: Seq<char>| #[trigger] ("tool-results/"@ + name) == path) || (exists|
                name: Seq<char>,
            | #[trigger]
                ("artifacts/compression-transcripts/"@ + name) == path)
        },
{
    let first = "tool-results/"@;
    let second = "artifacts/compression-transcripts/"@;
    if first.is_prefix_of(path) {
        assert(first + path.skip(first.len() as int) =~= path);
    }
    if second.is_prefix_of(path) {
        assert(second + path.skip(second.len() as int) =~= path);
    }
    assert forall|name: Seq<char>| #[trigger] (first + name) == path implies first.is_prefix_of(
        path,
    ) by {
        assert(path.subrange(0, first.len() as int) =~= first);
    }
    assert forall|name: Seq<char>| #[trigger] (second + name) == path implies second.is_prefix_of(
        path,
    ) by {
        assert(path.subrange(0, second.len() as int) =~= second);
    }
}

/// Whatever stands below an artifact directory under an accepted name is an accepted
/// artifact path, whatever the name and however long.
pub proof fn lemma_names_below_artifact_directories_are_accepted(style: PathStyle, name: Seq<char>)
    ensures
        paths::workspace_path_error(style, "tool-results/"@ + name) is None
            ==> paths::artifact_path_error(style, "tool-results/"@ + name) is None,
        paths::workspace_path_error(style, "artifacts/compression-transcripts/"@ + name) is None
            ==> paths::artifact_path_error(
            style,
            "artifacts/compression-transcripts/"@ + name,
        ) is None,
{
    lemma_accepted_artifact_paths(style, "tool-results/"@ + name);
    lemma_accepted_artifact_paths(style, "artifacts/compression-transcripts/"@ + name);
}

/// A commit is accepted exactly if it is made of at least seven hexadecimal digits.
pub proof fn lemma_accepted_commits(commit: Seq<char>)
    ensures
        paths::commit_error(commit) is None <==> {
            &&& commit.len() >= 7
            &&& forall|i: int|
                0 <= i < commit.len() ==> "0123456789abcdefABCDEF"@.contains(#[trigger] commit[i])
        },
{
    reveal_strlit("0123456789abcdefABCDEF");
    let digits = "0123456789abcdefABCDEF"@;
    assert forall|c: char| #[trigger] digits.contains(c) <==> paths::is_hex_digit(c) by {
        if '0' <= c <= '9' {
            assert(digits[c as int - 48] == c);
        }
        if 'a' <= c <= 'f' {
            assert(digits[c as int - 97 + 10] == c);
        }
        if 'A' <= c <= 'F' {
            assert(digits[c as int - 65 + 16] == c);
        }
    }
    if forall|i: int| 0 <= i < commit.len() ==> digits.contains(#[trigger] commit[i]) {
        assert forall|i: int| 0 <= i < commit.len() implies paths::is_hex_digit(
            #[trigger] commit[i],
        ) by {
            assert(digits.contains(commit[i]));
        }
    }
}

/// A refusal names what was refused.
pub proof fn lemma_refusals_name_their_subject(style: PathStyle, subject: Seq<char>)
    ensures
        paths::commit_error(subject) matches Some(error) ==> error == ErrorView::Validation(
            "Invalid checkpoint baseline commit: "@ + subject,
        ),
        paths::workspace_path_error(style, subject) matches Some(error) ==> error
            == ErrorView::Validation("Unsafe checkpoint workspace path: "@ + subject)
            && paths::artifact_path_error(style, subject) == Some(error),
        paths::workspace_path_error(style, subject) is None ==> (paths::artifact_path_error(
            style,
            subject,
        ) matches Some(error) ==> error == ErrorView::Validation(
            "Unsupported round replay session artifact path: "@ + subject,
        )),
{
}

} // verus!
