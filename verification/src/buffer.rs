use vstd::prelude::*;

use crate::render::chars_to_string;
use crate::render::dec_digits;
use crate::render::dec_list_body;
use crate::render::push_dec;
use crate::render::push_dec_list;

verus! {

/// A direction for cursor navigation in a `Buffer`.
pub enum Move {
    Up,
    Left,
    Down,
    Right,
}

/// The in-memory text model of a terminal editor: the document as a flat
/// character sequence, a parallel index of per-line end offsets, and the
/// cursor as a linear offset together with its derived (line, column)
/// coordinates.
pub struct Buffer {
    pub content: Vec<char>,
    pub line: usize,
    pub column: usize,
    pub cursor: usize,
    pub lines: Vec<usize>,
}

/// Offset of the first character of line `l`, given the line index.
pub open spec fn line_start(lines: Seq<usize>, l: int) -> int {
    if l <= 0 {
        0
    } else {
        lines[l - 1] as int
    }
}

/// Number of characters in line `l`, its trailing newline included.
pub open spec fn line_width(lines: Seq<usize>, l: int) -> int {
    lines[l] - line_start(lines, l)
}

/// `l` is the line that offset `k` falls on: the first line whose end
/// offset exceeds `k`, or the last line when no end offset does.
pub open spec fn line_at(lines: Seq<usize>, k: int, l: int) -> bool {
    &&& 0 <= l < lines.len()
    &&& forall|i: int| 0 <= i < l ==> #[trigger] lines[i] <= k
    &&& l < lines.len() - 1 ==> lines[l] > k
}

/// Offset `k` projects to the coordinates (`l`, `c`): `l` is the line of
/// `k` and `c` its distance from that line's start.
pub open spec fn is_position(lines: Seq<usize>, k: int, l: int, c: int) -> bool {
    &&& line_at(lines, k, l)
    &&& c == k - line_start(lines, l)
}

/// Offset `k` lies within the closed extent of line `l`, its end offset
/// included, and `c` is its distance from the line's start. Unlike
/// `is_position`, this admits a cursor parked on the line's end offset,
/// where a plain up- or down-move may leave it.
pub open spec fn loose_position(lines: Seq<usize>, k: int, l: int, c: int) -> bool {
    &&& 0 <= l < lines.len()
    &&& line_start(lines, l) <= k <= lines[l]
    &&& c == k - line_start(lines, l)
}

/// Structural invariant tying the line index to the document:
/// there is at least one line; the last end offset is the document length;
/// every other end offset sits just past a newline character; end offsets
/// are non-decreasing, and strictly increasing among the newline-backed
/// ones; and every newline character is recorded as some line's end.
pub open spec fn lines_wf(content: Seq<char>, lines: Seq<usize>) -> bool {
    &&& lines.len() >= 1
    &&& lines[lines.len() - 1] == content.len()
    &&& forall|i: int|
        0 <= i < lines.len() - 1 ==> 1 <= #[trigger] lines[i] && lines[i] <= content.len()
            && content[lines[i] - 1] == '\n'
    &&& forall|i: int, j: int|
        0 <= i <= j < lines.len() ==> #[trigger] lines[i] <= #[trigger] lines[j]
    &&& forall|i: int, j: int|
        0 <= i < j < lines.len() - 1 ==> #[trigger] lines[i] < #[trigger] lines[j]
    &&& forall|p: int|
        0 <= p < content.len() && #[trigger] content[p] == '\n' ==> exists|i: int|
            0 <= i < lines.len() - 1 && #[trigger] lines[i] == p + 1
}

/// At most one line satisfies `line_at` for a given offset.
pub proof fn lemma_line_at_unique(lines: Seq<usize>, k: int, l1: int, l2: int)
    requires
        line_at(lines, k, l1),
        line_at(lines, k, l2),
    ensures
        l1 == l2,
{
    if l1 < l2 {
        assert(lines[l1] <= k);
    }
    if l2 < l1 {
        assert(lines[l2] <= k);
    }
}

/// The diagnostic line a buffer reports: its cursor offset, line, column
/// and full line index, rendered in decimal.
pub open spec fn test_repr(b: Buffer) -> Seq<char> {
    "buffer_pos:"@ + dec_digits(b.cursor as nat) + " line:"@ + dec_digits(b.line as nat)
        + " column:"@ + dec_digits(b.column as nat) + " lines:"@ + seq!['['] + dec_list_body(
        b.lines@,
    ) + seq![']']
}

impl Buffer {
    /// Full validity: the line index is well formed, the cursor is in
    /// bounds, and (line, column) is the projection of the cursor offset.
    pub open spec fn wf(self) -> bool {
        &&& lines_wf(self.content@, self.lines@)
        &&& self.cursor <= self.content@.len()
        &&& is_position(self.lines@, self.cursor as int, self.line as int, self.column as int)
    }

    /// Relaxed validity: as `wf`, except that the cursor may also sit on
    /// its line's end offset. Every `wf` state is `wf_loose`; movement
    /// preserves `wf_loose`, and all other operations restore full `wf`.
    pub open spec fn wf_loose(self) -> bool {
        &&& lines_wf(self.content@, self.lines@)
        &&& self.cursor <= self.content@.len()
        &&& loose_position(self.lines@, self.cursor as int, self.line as int, self.column as int)
    }

    /// An empty buffer: no characters, one empty line, cursor at the start.
    pub fn new() -> (r: Self)
        ensures
            r.wf(),
            r.wf_loose(),
            r.content@ == Seq::<char>::empty(),
            r.cursor == 0,
            r.line == 0,
            r.column == 0,
            r.lines@ == seq![0usize],
    {
        let mut lines: Vec<usize> = Vec::new();
        lines.push(0);
        let r = Buffer { content: Vec::new(), line: 0, column: 0, cursor: 0, lines };
        proof {
            assert(r.lines@ =~= seq![0usize]);
            assert(r.content@ =~= Seq::<char>::empty());
            lemma_wf_implies_loose(r);
        }
        r
    }
}

/// Document and line index agree between the two states.
pub open spec fn same_text(pre: Buffer, post: Buffer) -> bool {
    &&& post.content@ == pre.content@
    &&& post.lines@ == pre.lines@
}

/// The two states agree on every observable field.
pub open spec fn unchanged(pre: Buffer, post: Buffer) -> bool {
    &&& same_text(pre, post)
    &&& post.cursor == pre.cursor
    &&& post.line == pre.line
    &&& post.column == pre.column
}

/// Exact effect of inserting `ch` at the cursor: the character enters the
/// document at the cursor offset, the cursor and column advance, and the
/// end offsets of the cursor's line and of every later line grow by one.
/// A newline additionally splits the current line: its end becomes the new
/// cursor offset, a fresh line holding the old end is added right after it,
/// and the cursor lands at column 0 of that next line.
pub open spec fn insert_post(pre: Buffer, post: Buffer, ch: char) -> bool {
    let k = pre.cursor as int;
    let l = pre.line as int;
    &&& post.content@ == pre.content@.insert(k, ch)
    &&& post.cursor == k + 1
    &&& if ch == '\n' {
        &&& post.line == l + 1
        &&& post.column == 0
        &&& post.lines@.len() == pre.lines@.len() + 1
        &&& forall|i: int| 0 <= i < l ==> #[trigger] post.lines@[i] == pre.lines@[i]
        &&& post.lines@[l] == k + 1
        &&& forall|i: int|
            l < i < post.lines@.len() ==> #[trigger] post.lines@[i] == pre.lines@[i - 1] + 1
    } else {
        &&& post.line == l
        &&& post.column == pre.column + 1
        &&& post.lines@.len() == pre.lines@.len()
        &&& forall|i: int| 0 <= i < l ==> #[trigger] post.lines@[i] == pre.lines@[i]
        &&& forall|i: int|
            l <= i < post.lines@.len() ==> #[trigger] post.lines@[i] == pre.lines@[i] + 1
    }
}

/// Exact effect of removing the character before the cursor: a no-op at
/// offset 0; otherwise that character leaves the document, the cursor moves
/// back, and the end offsets of the cursor's line and of every later line
/// shrink by one. Removing a newline additionally merges the current line
/// into the one above: the line count drops by one, the preceding line
/// absorbs the merged end offset, and the cursor lands at the join point.
pub open spec fn remove_post(pre: Buffer, post: Buffer) -> bool {
    let k = pre.cursor as int;
    let l = pre.line as int;
    let n = pre.lines@.len() as int;
    if k == 0 {
        unchanged(pre, post)
    } else {
        &&& post.content@ == pre.content@.remove(k - 1)
        &&& post.cursor == k - 1
        &&& if pre.content@[k - 1] == '\n' {
            &&& post.line == l - 1
            &&& post.column == k - 1 - line_start(pre.lines@, l - 1)
            &&& post.lines@.len() == n - 1
            &&& forall|i: int| 0 <= i < l - 1 ==> #[trigger] post.lines@[i] == pre.lines@[i]
            &&& forall|i: int|
                l - 1 <= i < n - 1 ==> #[trigger] post.lines@[i] == pre.lines@[i + 1] - 1
        } else {
            &&& post.line == l
            &&& post.column == if pre.column > 0 {
                pre.column - 1
            } else {
                0
            }
            &&& post.lines@.len() == n
            &&& forall|i: int| 0 <= i < l ==> #[trigger] post.lines@[i] == pre.lines@[i]
            &&& forall|i: int| l <= i < n ==> #[trigger] post.lines@[i] == pre.lines@[i] - 1
        }
    }
}

/// Exact effect of moving up one line: a no-op on line 0; otherwise the
/// line decrements, the column is clamped into the shorter line, and the
/// cursor is recomputed from the new pair. Snapping to the line end lands
/// one before the line's end offset; snapping to the start lands on its
/// first character.
pub open spec fn up_post(pre: Buffer, post: Buffer, to_start: bool, to_end: bool) -> bool {
    &&& same_text(pre, post)
    &&& if pre.line == 0 {
        &&& post.cursor == pre.cursor
        &&& post.line == pre.line
        &&& post.column == pre.column
    } else {
        let l = pre.line - 1;
        let w = line_width(pre.lines@, l);
        if to_end {
            &&& post.line == l
            &&& post.cursor == pre.lines@[l] - 1
            &&& post.column == w - 1
        } else if to_start {
            &&& post.line == l
            &&& post.cursor == line_start(pre.lines@, l)
            &&& post.column == 0
        } else {
            let c = if w < pre.column {
                w - 1
            } else {
                pre.column as int
            };
            &&& post.line == l
            &&& post.column == c
            &&& post.cursor == line_start(pre.lines@, l) + c
        }
    }
}

/// Exact effect of moving down one line: a no-op on the last line;
/// otherwise the line increments, the column is clamped into the shorter
/// line (to 0 when that line is empty), and the cursor is recomputed.
/// Snapping to the start lands on the line's first character. Snapping to
/// the end parks the cursor on the line's end offset itself, the column
/// at the full line width; on the last line that is the one-past-the-end
/// position of the document.
pub open spec fn down_post(pre: Buffer, post: Buffer, to_start: bool, to_end: bool) -> bool {
    let n = pre.lines@.len() as int;
    &&& same_text(pre, post)
    &&& if pre.line == n - 1 {
        &&& post.cursor == pre.cursor
        &&& post.line == pre.line
        &&& post.column == pre.column
    } else {
        let l = pre.line + 1;
        let w = line_width(pre.lines@, l);
        if to_start {
            &&& post.line == l
            &&& post.cursor == line_start(pre.lines@, l)
            &&& post.column == 0
        } else if to_end {
            &&& post.line == l
            &&& post.cursor == pre.lines@[l] as int
            &&& post.column == w
        } else {
            let c = if w < pre.column {
                if w == 0 {
                    0
                } else {
                    w - 1
                }
            } else {
                pre.column as int
            };
            &&& post.line == l
            &&& post.column == c
            &&& post.cursor == line_start(pre.lines@, l) + c
        }
    }
}

/// Exact effect of moving right: within the line, the column and cursor
/// advance by one; when that step reaches the line's last column, the move
/// chains into a down-move that lands on the start of the next line (or,
/// on the last line, stays at the one-past-the-end position). A cursor
/// already at the line width does not move.
pub open spec fn right_post(pre: Buffer, post: Buffer) -> bool {
    let w = line_width(pre.lines@, pre.line as int);
    &&& same_text(pre, post)
    &&& if pre.column < w {
        if pre.column == w - 1 && pre.line < pre.lines@.len() - 1 {
            &&& post.line == pre.line + 1
            &&& post.column == 0
            &&& post.cursor == line_start(pre.lines@, pre.line + 1)
        } else {
            &&& post.line == pre.line
            &&& post.column == pre.column + 1
            &&& post.cursor == pre.cursor + 1
        }
    } else {
        &&& post.cursor == pre.cursor
        &&& post.line == pre.line
        &&& post.column == pre.column
    }
}

/// Exact effect of a `mv` call: a no-op on an empty document; otherwise
/// the per-direction transition, with a left move off the start of a line
/// behaving as an up-move snapped to the line end.
pub open spec fn mv_post(pre: Buffer, post: Buffer, m: Move, to_start: bool, to_end: bool) -> bool {
    if pre.content@.len() == 0 {
        unchanged(pre, post)
    } else {
        match m {
            Move::Up => up_post(pre, post, to_start, to_end),
            Move::Down => down_post(pre, post, to_start, to_end),
            Move::Left => if pre.column > 0 {
                &&& same_text(pre, post)
                &&& post.line == pre.line
                &&& post.column == pre.column - 1
                &&& post.cursor == pre.cursor - 1
            } else {
                up_post(pre, post, false, true)
            },
            Move::Right => right_post(pre, post),
        }
    }
}

/// A newline right before the cursor is the end of the previous line:
/// the cursor then cannot sit on line 0, and the previous line's end
/// offset is exactly the cursor offset.
pub proof fn lemma_newline_before_cursor(b: Buffer)
    requires
        b.wf(),
        b.cursor >= 1,
        b.content@[b.cursor - 1] == '\n',
    ensures
        b.line >= 1,
        b.lines@[b.line - 1] == b.cursor,
{
    let s = b.lines@;
    let k = b.cursor as int;
    let n = s.len() as int;
    let i = choose|i: int| 0 <= i < n - 1 && #[trigger] s[i] == k;
    assert(0 <= i < n - 1 && s[i] == k);
    if b.line == 0 {
        assert(s[0] <= s[i]);
        assert(false);
    }
    let l = b.line as int;
    assert(s[l - 1] <= k);
    if s[l - 1] < k {
        if i < l - 1 {
            assert(s[i] <= s[l - 1]);
            assert(false);
        } else {
            assert(l <= i);
            if l < n - 1 {
                assert(s[l] <= s[i]);
                assert(false);
            } else {
                assert(false);
            }
        }
    }
}

/// Inserting a character preserves the buffer invariant.
pub proof fn lemma_insert_preserves_wf(pre: Buffer, post: Buffer, ch: char)
    requires
        pre.wf(),
        pre.content@.len() < usize::MAX,
        insert_post(pre, post, ch),
    ensures
        post.wf(),
{
    let c0 = pre.content@;
    let c1 = post.content@;
    let s0 = pre.lines@;
    let s1 = post.lines@;
    let k = pre.cursor as int;
    let l = pre.line as int;
    let n = s0.len() as int;
    c0.insert_ensures(k, ch);
    assert(c1.len() == c0.len() + 1);
    if ch == '\n' {
        let m = s1.len() as int;
        assert(s1[m - 1] == c1.len());
        assert forall|i: int|
            0 <= i < m - 1 implies 1 <= #[trigger] s1[i] && s1[i] <= c1.len() && c1[s1[i] - 1]
            == '\n' by {
            if i < l {
                assert(s0[i] <= k);
                assert(c1[s0[i] - 1] == c0[s0[i] - 1]);
            } else if i == l {
                assert(c1[k] == ch);
            } else {
                assert(s1[i] == s0[i - 1] + 1);
                assert(1 <= s0[i - 1] && c0[s0[i - 1] - 1] == '\n');
                if l < n - 1 {
                    assert(s0[l] <= s0[i - 1]);
                    assert(s0[i - 1] > k);
                } else {
                    assert(i - 1 <= n - 2);
                    assert(false);
                }
                assert(c1[s0[i - 1] + 1 - 1] == c0[s0[i - 1] - 1]);
            }
        }
        assert forall|i: int, j: int| 0 <= i <= j < m implies #[trigger] s1[i] <= #[trigger] s1[j] by {
            if j < l {
                assert(s0[i] <= s0[j]);
            } else if j == l {
                if i < l {
                    assert(s0[i] <= k);
                }
            } else {
                if i < l {
                    assert(s0[i] <= s0[j - 1]);
                } else if i == l {
                    if l < n - 1 {
                        assert(s0[l] > k);
                        assert(s0[l] <= s0[j - 1]);
                    } else {
                        assert(s0[j - 1] == c0.len());
                    }
                } else {
                    assert(s0[i - 1] <= s0[j - 1]);
                }
            }
        }
        assert forall|i: int, j: int| 0 <= i < j < m - 1 implies #[trigger] s1[i] < #[trigger] s1[j] by {
            if j < l {
                assert(s0[i] < s0[j]);
            } else if j == l {
                assert(s0[i] <= k);
            } else {
                if i < l {
                    assert(s0[i] <= s0[j - 1]);
                } else if i == l {
                    assert(l < n - 1);
                    assert(s0[l] <= s0[j - 1]);
                } else {
                    assert(s0[i - 1] < s0[j - 1]);
                }
            }
        }
        assert forall|p: int| 0 <= p < c1.len() && #[trigger] c1[p] == '\n' implies exists|i: int|
            0 <= i < m - 1 && #[trigger] s1[i] == p + 1 by {
            if p < k {
                assert(c0[p] == c1[p]);
                let i = choose|i: int| 0 <= i < n - 1 && #[trigger] s0[i] == p + 1;
                if i >= l {
                    if l < n - 1 {
                        assert(s0[l] <= s0[i]);
                        assert(false);
                    } else {
                        assert(false);
                    }
                }
                assert(s1[i] == p + 1);
            } else if p == k {
                assert(s1[l] == p + 1);
            } else {
                assert(c0[p - 1] == c1[p]);
                let i = choose|i: int| 0 <= i < n - 1 && #[trigger] s0[i] == p;
                if i < l {
                    assert(s0[i] <= k);
                    assert(false);
                }
                assert(s1[i + 1] == p + 1);
            }
        }
        assert(lines_wf(c1, s1));
        assert forall|i: int| 0 <= i < l + 1 implies #[trigger] s1[i] <= k + 1 by {
            if i < l {
                assert(s0[i] <= k);
            }
        }
        if l + 1 < m - 1 {
            assert(s1[l + 1] == s0[l] + 1);
            assert(s0[l] > k);
        }
        assert(line_start(s1, l + 1) == k + 1);
        assert(post.wf());
    } else {
        assert(s1.len() == n);
        assert(s1[n - 1] == s0[n - 1] + 1);
        assert forall|i: int|
            0 <= i < n - 1 implies 1 <= #[trigger] s1[i] && s1[i] <= c1.len() && c1[s1[i] - 1]
            == '\n' by {
            if i < l {
                assert(s0[i] <= k);
                assert(c1[s0[i] - 1] == c0[s0[i] - 1]);
            } else {
                assert(s1[i] == s0[i] + 1);
                assert(1 <= s0[i] && c0[s0[i] - 1] == '\n');
                if l < n - 1 {
                    assert(s0[l] <= s0[i]);
                    assert(s0[i] > k);
                } else {
                    assert(false);
                }
                assert(c1[s0[i] + 1 - 1] == c0[s0[i] - 1]);
            }
        }
        assert forall|i: int, j: int| 0 <= i <= j < n implies #[trigger] s1[i] <= #[trigger] s1[j] by {
            assert(s0[i] <= s0[j]);
        }
        assert forall|i: int, j: int| 0 <= i < j < n - 1 implies #[trigger] s1[i] < #[trigger] s1[j] by {
            assert(s0[i] < s0[j]);
        }
        assert forall|p: int| 0 <= p < c1.len() && #[trigger] c1[p] == '\n' implies exists|i: int|
            0 <= i < n - 1 && #[trigger] s1[i] == p + 1 by {
            if p < k {
                assert(c0[p] == c1[p]);
                let i = choose|i: int| 0 <= i < n - 1 && #[trigger] s0[i] == p + 1;
                if i >= l {
                    if l < n - 1 {
                        assert(s0[l] <= s0[i]);
                        assert(false);
                    } else {
                        assert(false);
                    }
                }
                assert(s1[i] == p + 1);
            } else if p == k {
                assert(c1[k] == ch);
                assert(false);
            } else {
                assert(c0[p - 1] == c1[p]);
                let i = choose|i: int| 0 <= i < n - 1 && #[trigger] s0[i] == p;
                if i < l {
                    assert(s0[i] <= k);
                    assert(false);
                }
                assert(s1[i] == p + 1);
            }
        }
        assert(lines_wf(c1, s1));
        assert forall|i: int| 0 <= i < l implies #[trigger] s1[i] <= k + 1 by {
            assert(s0[i] <= k);
        }
        if l < n - 1 {
            assert(s1[l] == s0[l] + 1);
            assert(s0[l] > k);
        }
        assert(line_start(s1, l) == line_start(s0, l));
        assert(post.wf());
    }
}

/// Removing a character preserves the buffer invariant.
pub proof fn lemma_remove_preserves_wf(pre: Buffer, post: Buffer)
    requires
        pre.wf(),
        remove_post(pre, post),
    ensures
        post.wf(),
{
    if pre.cursor == 0 {
        return ;
    }
    let c0 = pre.content@;
    let c1 = post.content@;
    let s0 = pre.lines@;
    let s1 = post.lines@;
    let k = pre.cursor as int;
    let l = pre.line as int;
    let n = s0.len() as int;
    c0.remove_ensures(k - 1);
    assert(c1.len() == c0.len() - 1);
    if c0[k - 1] == '\n' {
        lemma_newline_before_cursor(pre);
        assert(s0[l - 1] == k);
        let m = s1.len() as int;
        assert(m == n - 1);
        assert(s1[m - 1] == s0[n - 1] - 1);
        assert forall|i: int|
            0 <= i < m - 1 implies 1 <= #[trigger] s1[i] && s1[i] <= c1.len() && c1[s1[i] - 1]
            == '\n' by {
            if i < l - 1 {
                assert(s0[i] < s0[l - 1]);
                assert(c1[s0[i] - 1] == c0[s0[i] - 1]);
            } else {
                assert(s1[i] == s0[i + 1] - 1);
                assert(i + 1 < n - 1);
                assert(1 <= s0[i + 1] && c0[s0[i + 1] - 1] == '\n');
                assert(l < n - 1);
                if i + 1 == l {
                    assert(s0[l] > k);
                } else {
                    assert(s0[l] < s0[i + 1]);
                }
                assert(c1[s0[i + 1] - 2] == c0[s0[i + 1] - 1]);
            }
        }
        assert forall|i: int, j: int| 0 <= i <= j < m implies #[trigger] s1[i] <= #[trigger] s1[j] by {
            if j < l - 1 {
                assert(s0[i] <= s0[j]);
            } else if i < l - 1 {
                assert(s0[i] < s0[l - 1]);
                assert(s0[l - 1] <= s0[j + 1]);
            } else {
                assert(s0[i + 1] <= s0[j + 1]);
            }
        }
        assert forall|i: int, j: int| 0 <= i < j < m - 1 implies #[trigger] s1[i] < #[trigger] s1[j] by {
            if j < l - 1 {
                assert(s0[i] < s0[j]);
            } else if i < l - 1 {
                assert(s0[i] < s0[l - 1]);
                assert(j + 1 < n - 1);
                assert(s0[l - 1] < s0[j + 1]);
            } else {
                assert(s0[i + 1] < s0[j + 1]);
            }
        }
        assert forall|p: int| 0 <= p < c1.len() && #[trigger] c1[p] == '\n' implies exists|i: int|
            0 <= i < m - 1 && #[trigger] s1[i] == p + 1 by {
            if p < k - 1 {
                assert(c0[p] == c1[p]);
                let i = choose|i: int| 0 <= i < n - 1 && #[trigger] s0[i] == p + 1;
                assert(s0[i] < s0[l - 1]);
                if i >= l - 1 {
                    assert(s0[l - 1] <= s0[i]);
                    assert(false);
                }
                assert(s1[i] == p + 1);
            } else {
                assert(c0[p + 1] == c1[p]);
                let i = choose|i: int| 0 <= i < n - 1 && #[trigger] s0[i] == p + 2;
                if i < l {
                    assert(s0[i] <= k);
                    assert(false);
                }
                assert(s1[i - 1] == s0[i] - 1);
                assert(s1[i - 1] == p + 1);
            }
        }
        assert(lines_wf(c1, s1));
        assert forall|i: int| 0 <= i < l - 1 implies #[trigger] s1[i] <= k - 1 by {
            assert(s0[i] < s0[l - 1]);
        }
        if l - 1 < m - 1 {
            assert(l < n - 1);
            assert(s1[l - 1] == s0[l] - 1);
            assert(s0[l] > k);
        }
        if l - 1 > 0 {
            assert(s1[l - 2] == s0[l - 2]);
            assert(s0[l - 2] < s0[l - 1]);
        }
        assert(line_start(s1, l - 1) == line_start(s0, l - 1));
        assert(post.wf());
    } else {
        assert(s1.len() == n);
        assert(s1[n - 1] == s0[n - 1] - 1);
        // no end offset of an earlier line can sit exactly at the cursor,
        // else the removed character would be a newline
        assert forall|i: int| 0 <= i < l implies #[trigger] s0[i] < k by {
            assert(s0[i] <= k);
            if s0[i] == k {
                assert(c0[s0[i] - 1] == '\n');
            }
        }
        assert forall|i: int|
            0 <= i < n - 1 implies 1 <= #[trigger] s1[i] && s1[i] <= c1.len() && c1[s1[i] - 1]
            == '\n' by {
            if i < l {
                assert(s0[i] < k);
                assert(c1[s0[i] - 1] == c0[s0[i] - 1]);
            } else {
                assert(s1[i] == s0[i] - 1);
                assert(1 <= s0[i] && c0[s0[i] - 1] == '\n');
                assert(l < n - 1);
                if i == l {
                    assert(s0[l] > k);
                } else {
                    assert(s0[l] <= s0[i]);
                    assert(s0[l] > k);
                }
                assert(c1[s0[i] - 2] == c0[s0[i] - 1]);
            }
        }
        assert forall|i: int, j: int| 0 <= i <= j < n implies #[trigger] s1[i] <= #[trigger] s1[j] by {
            if j < l {
                assert(s0[i] <= s0[j]);
            } else if i < l {
                assert(s0[i] < k);
                assert(s0[l] <= s0[j]);
                if j < n - 1 {
                    assert(s0[j] > k);
                } else {
                    assert(s0[j] == c0.len());
                }
            } else {
                assert(s0[i] <= s0[j]);
            }
        }
        assert forall|i: int, j: int| 0 <= i < j < n - 1 implies #[trigger] s1[i] < #[trigger] s1[j] by {
            if j < l {
                assert(s0[i] < s0[j]);
            } else if i < l {
                assert(s0[i] < k);
                assert(s0[l] <= s0[j]);
                assert(s0[j] > k);
            } else {
                assert(s0[i] < s0[j]);
            }
        }
        assert forall|p: int| 0 <= p < c1.len() && #[trigger] c1[p] == '\n' implies exists|i: int|
            0 <= i < n - 1 && #[trigger] s1[i] == p + 1 by {
            if p < k - 1 {
                assert(c0[p] == c1[p]);
                let i = choose|i: int| 0 <= i < n - 1 && #[trigger] s0[i] == p + 1;
                if i >= l {
                    if l < n - 1 {
                        assert(s0[l] <= s0[i]);
                        assert(false);
                    } else {
                        assert(false);
                    }
                }
                assert(s1[i] == p + 1);
            } else {
                assert(c0[p + 1] == c1[p]);
                let i = choose|i: int| 0 <= i < n - 1 && #[trigger] s0[i] == p + 2;
                if i < l {
                    assert(s0[i] <= k);
                    assert(false);
                }
                assert(s1[i] == s0[i] - 1);
                assert(s1[i] == p + 1);
            }
        }
        assert(lines_wf(c1, s1));
        // the column is positive: a column of 0 would put a newline, or the
        // document start, right before the cursor
        if pre.column == 0 {
            if l == 0 {
                assert(k == 0);
            } else {
                assert(s0[l - 1] == k);
                assert(c0[k - 1] == '\n');
            }
            assert(false);
        }
        assert forall|i: int| 0 <= i < l implies #[trigger] s1[i] <= k - 1 by {
            assert(s0[i] < k);
        }
        if l < n - 1 {
            assert(s1[l] == s0[l] - 1);
            assert(s0[l] > k);
        }
        assert(line_start(s1, l) == line_start(s0, l));
        assert(post.wf());
    }
}

/// Insert and remove are mutual inverses: inserting any character and
/// then removing it restores the document, the cursor offset, the line,
/// the column and the line index exactly.
pub proof fn lemma_insert_then_remove_restores(a: Buffer, b: Buffer, c: Buffer, ch: char)
    requires
        a.wf(),
        a.content@.len() < usize::MAX,
        insert_post(a, b, ch),
        remove_post(b, c),
    ensures
        c.content@ == a.content@,
        c.cursor == a.cursor,
        c.line == a.line,
        c.column == a.column,
        c.lines@ == a.lines@,
{
    let k = a.cursor as int;
    let l = a.line as int;
    a.content@.insert_ensures(k, ch);
    assert(b.content@[k] == ch);
    b.content@.remove_ensures(k);
    assert(c.content@ =~= a.content@);
    if ch == '\n' {
        if l > 0 {
            assert(b.lines@[l - 1] == a.lines@[l - 1]);
        }
        assert(line_start(b.lines@, l) == line_start(a.lines@, l));
        assert(c.column == k - line_start(a.lines@, l));
        assert forall|i: int| 0 <= i < c.lines@.len() implies #[trigger] c.lines@[i]
            == a.lines@[i] by {
            if i < l {
                assert(b.lines@[i] == a.lines@[i]);
            } else {
                assert(c.lines@[i] == b.lines@[i + 1] - 1);
                assert(b.lines@[i + 1] == a.lines@[i] + 1);
            }
        }
        assert(c.lines@ =~= a.lines@);
    } else {
        assert forall|i: int| 0 <= i < c.lines@.len() implies #[trigger] c.lines@[i]
            == a.lines@[i] by {
            if i < l {
                assert(b.lines@[i] == a.lines@[i]);
            } else {
                assert(b.lines@[i] == a.lines@[i] + 1);
            }
        }
        assert(c.lines@ =~= a.lines@);
    }
}

/// Backspace on an empty document is a no-op.
pub proof fn lemma_remove_empty_noop(pre: Buffer, post: Buffer)
    requires
        pre.wf(),
        pre.content@.len() == 0,
        remove_post(pre, post),
    ensures
        unchanged(pre, post),
{
}

/// Boundary moves are no-ops: up on the first line, down on the last
/// line, and left at the start of the document all leave the buffer
/// unchanged.
pub proof fn lemma_mv_boundary_noop(pre: Buffer, post: Buffer, m: Move, to_start: bool, to_end: bool)
    requires
        pre.wf_loose(),
        mv_post(pre, post, m, to_start, to_end),
        (m == Move::Up && pre.line == 0) || (m == Move::Down && pre.line == pre.lines@.len() - 1)
            || (m == Move::Left && pre.cursor == 0),
    ensures
        unchanged(pre, post),
{
    if pre.content@.len() == 0 {
        return ;
    }
    if m == Move::Left {
        if pre.line > 0 {
            assert(pre.lines@[pre.line - 1] <= 0);
            assert(1 <= pre.lines@[0]);
            assert(pre.lines@[0] <= pre.lines@[pre.line - 1]);
            assert(false);
        }
        assert(pre.column == 0);
    }
}

/// Every fully valid state is also valid in the relaxed sense.
pub proof fn lemma_wf_implies_loose(b: Buffer)
    requires
        b.wf(),
    ensures
        b.wf_loose(),
{
    let s = b.lines@;
    let l = b.line as int;
    if l > 0 {
        assert(s[l - 1] <= b.cursor);
    }
    assert(s[l] <= s[s.len() - 1]);
}

/// An up-move preserves relaxed validity.
pub proof fn lemma_up_preserves_loose(pre: Buffer, post: Buffer, to_start: bool, to_end: bool)
    requires
        pre.wf_loose(),
        up_post(pre, post, to_start, to_end),
    ensures
        post.wf_loose(),
{
    let s = pre.lines@;
    let n = s.len() as int;
    if pre.line == 0 {
        return ;
    }
    let l = pre.line - 1;
    assert(l < n - 1);
    // the destination line ends with a newline, so it has width >= 1
    if l > 0 {
        assert(s[l - 1] < s[l]);
    }
    let w = line_width(s, l);
    assert(w >= 1);
    assert(s[l] <= s[n - 1]);
}

/// A down-move preserves relaxed validity.
pub proof fn lemma_down_preserves_loose(pre: Buffer, post: Buffer, to_start: bool, to_end: bool)
    requires
        pre.wf_loose(),
        down_post(pre, post, to_start, to_end),
    ensures
        post.wf_loose(),
{
    let s = pre.lines@;
    let n = s.len() as int;
    if pre.line == n - 1 {
        return ;
    }
    let l = pre.line + 1;
    let w = line_width(s, l);
    assert(s[l - 1] <= s[l]);
    if l < n - 1 {
        assert(s[l - 1] < s[l]);
        assert(w >= 1);
    }
    assert(s[l] <= s[n - 1]);
}

/// The moves that leave the cursor parked on a line's end offset, where
/// the stored line differs from the one `locate` would re-derive: a plain
/// up- or down-move whose destination line is exactly as wide as the
/// current column, and a down-move snapped to the end of a line short of
/// the last one.
pub open spec fn mv_lands_on_line_end(pre: Buffer, m: Move, to_start: bool, to_end: bool) -> bool {
    &&& pre.content@.len() > 0
    &&& match m {
        Move::Up => !to_start && !to_end && pre.line > 0 && pre.column == line_width(
            pre.lines@,
            pre.line - 1,
        ),
        Move::Down => pre.line < pre.lines@.len() - 1 && pre.line + 1 < pre.lines@.len() - 1
            && !to_start && (to_end || pre.column == line_width(pre.lines@, pre.line + 1)),
        Move::Left => false,
        Move::Right => false,
    }
}

/// Every move that does not park the cursor on a line's end offset keeps
/// the buffer fully valid: the line index is untouched and the stored
/// (line, column) still is the projection of the new cursor offset.
pub proof fn lemma_mv_keeps_position(pre: Buffer, post: Buffer, m: Move, to_start: bool, to_end: bool)
    requires
        pre.wf(),
        mv_post(pre, post, m, to_start, to_end),
        !mv_lands_on_line_end(pre, m, to_start, to_end),
    ensures
        post.wf(),
{
    let s = pre.lines@;
    let n = s.len() as int;
    if pre.content@.len() == 0 {
        return ;
    }
    match m {
        Move::Up => {
            if pre.line > 0 {
                let l = pre.line - 1;
                assert(l < n - 1);
                if l > 0 {
                    assert(s[l - 1] < s[l]);
                }
                let w = line_width(s, l);
                assert(w >= 1);
                assert forall|i: int| 0 <= i < l implies #[trigger] s[i] < s[l] by {
                    assert(s[i] < s[l]);
                }
            }
        },
        Move::Down => {
            if pre.line < n - 1 {
                let l = pre.line + 1;
                let w = line_width(s, l);
                assert(s[l - 1] <= s[l]);
                if l < n - 1 {
                    assert(s[l - 1] < s[l]);
                    assert(w >= 1);
                    if l + 1 < n - 1 {
                        assert(s[l] < s[l + 1]);
                    }
                    assert forall|i: int| 0 <= i < l implies #[trigger] s[i] < s[l] by {
                        assert(s[i] < s[l]);
                    }
                }
                assert(s[l] <= s[n - 1]);
            }
        },
        Move::Left => {
            if pre.column > 0 {
                let l = pre.line as int;
                if l > 0 {
                    assert(s[l - 1] <= pre.cursor - 1);
                }
            } else {
                if pre.line > 0 {
                    let l = pre.line - 1;
                    assert(l < n - 1);
                    if l > 0 {
                        assert(s[l - 1] < s[l]);
                    }
                    assert(line_width(s, l) >= 1);
                    assert forall|i: int| 0 <= i < l implies #[trigger] s[i] < s[l] by {
                        assert(s[i] < s[l]);
                    }
                }
            }
        },
        Move::Right => {
            let l = pre.line as int;
            let w = line_width(s, l);
            if pre.column < w {
                if pre.column == w - 1 && l < n - 1 {
                    assert forall|i: int| 0 <= i < l + 1 implies #[trigger] s[i] <= s[l] by {
                        assert(s[i] <= s[l]);
                    }
                    if l + 1 < n - 1 {
                        assert(s[l] < s[l + 1]);
                    }
                    assert(s[l] <= s[n - 1]);
                } else {
                    if l > 0 {
                        assert(s[l - 1] <= pre.cursor);
                    }
                    if l == n - 1 {
                        assert(pre.cursor + 1 <= s[l]);
                    }
                }
            }
        },
    }
}

impl Buffer {
    /// The diagnostic line for this buffer; see `test_repr`.
    pub fn test(&self) -> (s: String)
        ensures
            s@ == test_repr(*self),
    {
        let mut v: Vec<char> = Vec::new();
        v.push('b');
        v.push('u');
        v.push('f');
        v.push('f');
        v.push('e');
        v.push('r');
        v.push('_');
        v.push('p');
        v.push('o');
        v.push('s');
        v.push(':');
        proof {
            reveal_strlit("buffer_pos:");
            assert(v@ =~= "buffer_pos:"@);
        }
        push_dec(&mut v, self.cursor);
        let ghost p1 = "buffer_pos:"@ + dec_digits(self.cursor as nat);
        assert(v@ == p1);
        v.push(' ');
        v.push('l');
        v.push('i');
        v.push('n');
        v.push('e');
        v.push(':');
        proof {
            reveal_strlit(" line:");
            assert(v@ =~= p1 + " line:"@);
        }
        push_dec(&mut v, self.line);
        let ghost p2 = p1 + " line:"@ + dec_digits(self.line as nat);
        assert(v@ =~= p2);
        v.push(' ');
        v.push('c');
        v.push('o');
        v.push('l');
        v.push('u');
        v.push('m');
        v.push('n');
        v.push(':');
        proof {
            reveal_strlit(" column:");
            assert(v@ =~= p2 + " column:"@);
        }
        push_dec(&mut v, self.column);
        let ghost p3 = p2 + " column:"@ + dec_digits(self.column as nat);
        assert(v@ =~= p3);
        v.push(' ');
        v.push('l');
        v.push('i');
        v.push('n');
        v.push('e');
        v.push('s');
        v.push(':');
        proof {
            reveal_strlit(" lines:");
            assert(v@ =~= p3 + " lines:"@);
        }
        push_dec_list(&mut v, &self.lines);
        let s = chars_to_string(v);
        proof {
            assert(s@ =~= test_repr(*self));
        }
        s
    }

    /// Number of characters in the line the cursor occupies, the line's
    /// trailing newline counted.
    pub fn current_line_cols(&self) -> (w: usize)
        requires
            lines_wf(self.content@, self.lines@),
            self.line < self.lines@.len(),
        ensures
            w == line_width(self.lines@, self.line as int),
    {
        if self.line == 0 {
            self.lines[0]
        } else {
            assert(self.lines@[self.line - 1] <= self.lines@[self.line as int]);
            self.lines[self.line] - self.lines[self.line - 1]
        }
    }

    /// Relocates the cursor to the given offset and re-derives (line,
    /// column) from it: the line is the first whose end offset exceeds the
    /// target, or the last line, and the column is the distance from that
    /// line's start.
    #[verifier::loop_isolation(false)]
    pub fn move_cursor(&mut self, cursor: usize)
        requires
            lines_wf(old(self).content@, old(self).lines@),
            cursor <= old(self).content@.len(),
        ensures
            final(self).wf(),
            final(self).wf_loose(),
            final(self).content@ == old(self).content@,
            final(self).lines@ == old(self).lines@,
            final(self).cursor == cursor,
            is_position(old(self).lines@, cursor as int, final(self).line as int, final(self).column as int),
    {
        let mut l: usize = 0;
        while l < self.lines.len() - 1 && self.lines[l] <= cursor
            invariant
                l < self.lines@.len(),
                forall|i: int| 0 <= i < l ==> #[trigger] self.lines@[i] <= cursor,
            decreases self.lines@.len() - l,
        {
            l += 1;
        }
        self.cursor = cursor;
        self.line = l;
        if l == 0 {
            self.column = cursor;
        } else {
            assert(self.lines@[l - 1] <= cursor);
            self.column = cursor - self.lines[l - 1];
        }
        proof {
            lemma_wf_implies_loose(*self);
        }
    }

    /// Inserts `ch` at the current cursor offset; see `insert_post` for
    /// the exact effect on the document, the line index and the cursor.
    #[verifier::loop_isolation(false)]
    pub fn insert(&mut self, ch: char)
        requires
            old(self).wf(),
            old(self).content@.len() < usize::MAX,
        ensures
            final(self).wf(),
            final(self).wf_loose(),
            insert_post(*old(self), *final(self), ch),
    {
        let ghost pre = *old(self);
        // the cursor's line and every later line absorb the new character
        let mut i: usize = self.line;
        while i < self.lines.len()
            invariant
                pre.line <= i <= self.lines@.len(),
                self.lines@.len() == pre.lines@.len(),
                self.content@ == pre.content@,
                self.cursor == pre.cursor,
                self.line == pre.line,
                self.column == pre.column,
                forall|j: int| 0 <= j < pre.line ==> #[trigger] self.lines@[j] == pre.lines@[j],
                forall|j: int|
                    pre.line <= j < i ==> #[trigger] self.lines@[j] == pre.lines@[j] + 1,
                forall|j: int|
                    i <= j < self.lines@.len() ==> #[trigger] self.lines@[j] == pre.lines@[j],
            decreases self.lines@.len() - i,
        {
            assert(pre.lines@[i as int] <= pre.content@.len());
            let v: usize = self.lines[i];
            self.lines[i] = v + 1;
            i += 1;
        }
        self.content.insert(self.cursor, ch);
        assert(self.cursor as int == line_start(pre.lines@, pre.line as int) + pre.column);
        self.cursor += 1;
        self.column += 1;
        if ch == '\n' {
            let prev_end: usize = self.lines[self.line];
            self.lines[self.line] = self.cursor;
            self.column = 0;
            self.line += 1;
            let ghost mid = self.lines@;
            self.lines.insert(self.line, prev_end);
            proof {
                mid.insert_ensures(self.line as int, prev_end);
            }
        }
        proof {
            assert(insert_post(pre, *self, ch));
            lemma_insert_preserves_wf(pre, *self, ch);
            lemma_wf_implies_loose(*self);
        }
    }

    /// Relocates the cursor to `cursor`, then inserts there; the effect is
    /// that of `move_cursor(cursor)` followed by `insert(ch)`.
    pub fn insert_at(&mut self, cursor: usize, ch: char)
        requires
            lines_wf(old(self).content@, old(self).lines@),
            cursor <= old(self).content@.len(),
            old(self).content@.len() < usize::MAX,
        ensures
            final(self).wf(),
            final(self).wf_loose(),
            exists|mid: Buffer|
                {
                    &&& mid.wf()
                    &&& mid.content@ == old(self).content@
                    &&& mid.lines@ == old(self).lines@
                    &&& mid.cursor == cursor
                    &&& #[trigger] insert_post(mid, *final(self), ch)
                },
    {
        self.move_cursor(cursor);
        let ghost mid = *self;
        self.insert(ch);
        proof {
            assert(insert_post(mid, *self, ch));
        }
    }

    /// Removes the character just before the cursor (a backspace); a no-op
    /// at offset 0. See `remove_post` for the exact effect.
    #[verifier::loop_isolation(false)]
    pub fn remove(&mut self)
        requires
            old(self).wf(),
        ensures
            final(self).wf(),
            final(self).wf_loose(),
            remove_post(*old(self), *final(self)),
    {
        if self.cursor == 0 {
            proof {
                lemma_wf_implies_loose(*self);
            }
            return ;
        }
        let ghost pre = *old(self);
        // the cursor's line and every later line give up the character
        let mut i: usize = self.line;
        while i < self.lines.len()
            invariant
                pre.line <= i <= self.lines@.len(),
                self.lines@.len() == pre.lines@.len(),
                self.content@ == pre.content@,
                self.cursor == pre.cursor,
                self.line == pre.line,
                self.column == pre.column,
                forall|j: int| 0 <= j < pre.line ==> #[trigger] self.lines@[j] == pre.lines@[j],
                forall|j: int|
                    pre.line <= j < i ==> #[trigger] self.lines@[j] == pre.lines@[j] - 1,
                forall|j: int|
                    i <= j < self.lines@.len() ==> #[trigger] self.lines@[j] == pre.lines@[j],
            decreases self.lines@.len() - i,
        {
            proof {
                if i < pre.lines@.len() - 1 {
                    assert(pre.lines@[pre.line as int] <= pre.lines@[i as int]);
                } else {
                    assert(pre.lines@[i as int] == pre.content@.len());
                }
            }
            let v: usize = self.lines[i];
            self.lines[i] = v - 1;
            i += 1;
        }
        let removed = self.content.remove(self.cursor - 1);
        self.cursor -= 1;
        if 0 < self.column {
            self.column -= 1;
        }
        if removed == '\n' {
            proof {
                lemma_newline_before_cursor(pre);
            }
            self.line -= 1;
            let e: usize = self.lines[self.line];
            assert(e == pre.cursor);
            self.cursor = e - 1;
            // width of the line the cursor merges into, before the merge
            let w: usize = if self.line == 0 {
                e
            } else {
                assert(self.lines@[self.line - 1] == pre.lines@[self.line - 1]);
                assert(pre.lines@[self.line - 1] < pre.lines@[self.line as int]);
                e - self.lines[self.line - 1]
            };
            self.column = w - 1;
            let ghost mid = self.lines@;
            let merged: usize = self.lines.remove(self.line + 1);
            proof {
                mid.remove_ensures(self.line + 1);
            }
            self.lines[self.line] = merged;
        }
        proof {
            assert(remove_post(pre, *self));
            lemma_remove_preserves_wf(pre, *self);
            lemma_wf_implies_loose(*self);
        }
    }

    /// Relocates the cursor to just past `cursor`, then removes backward,
    /// so the character at offset `cursor` is deleted; the effect is that
    /// of `move_cursor(cursor + 1)` followed by `remove()`.
    pub fn remove_at(&mut self, cursor: usize)
        requires
            lines_wf(old(self).content@, old(self).lines@),
            cursor < old(self).content@.len(),
        ensures
            final(self).wf(),
            final(self).wf_loose(),
            exists|mid: Buffer|
                {
                    &&& mid.wf()
                    &&& mid.content@ == old(self).content@
                    &&& mid.lines@ == old(self).lines@
                    &&& mid.cursor == cursor + 1
                    &&& #[trigger] remove_post(mid, *final(self))
                },
    {
        self.move_cursor(cursor + 1);
        let ghost mid = *self;
        self.remove();
        proof {
            assert(remove_post(mid, *self));
        }
    }

    /// One line up; see `up_post` for the exact effect.
    fn mv_up(&mut self, to_start: bool, to_end: bool)
        requires
            old(self).wf_loose(),
        ensures
            final(self).wf_loose(),
            up_post(*old(self), *final(self), to_start, to_end),
    {
        if self.line == 0 {
            return ;
        }
        let ghost pre = *old(self);
        self.line -= 1;
        let w: usize = self.current_line_cols();
        proof {
            assert(self.line < pre.lines@.len() - 1);
            if self.line > 0 {
                assert(pre.lines@[self.line - 1] < pre.lines@[self.line as int]);
            }
            assert(w >= 1);
        }
        if w < self.column {
            self.column = w - 1;
        }
        let start: usize = if self.line == 0 {
            0
        } else {
            self.lines[self.line - 1]
        };
        proof {
            assert(start + self.column <= pre.lines@[self.line as int]);
            assert(pre.lines@[self.line as int] <= pre.lines@[pre.lines@.len() - 1]);
        }
        self.cursor = start + self.column;
        if to_end {
            self.cursor = self.lines[self.line] - 1;
            self.column = w - 1;
        } else if to_start {
            self.cursor = start;
            self.column = 0;
        }
        proof {
            assert(up_post(pre, *self, to_start, to_end));
            lemma_up_preserves_loose(pre, *self, to_start, to_end);
        }
    }

    /// One line down; see `down_post` for the exact effect. The cursor
    /// and column are recomputed from the line index alone, so a caller
    /// may hand in a transient state, as the right-move wrap does.
    fn mv_down(&mut self, to_start: bool, to_end: bool)
        requires
            lines_wf(old(self).content@, old(self).lines@),
            old(self).line < old(self).lines@.len(),
        ensures
            down_post(*old(self), *final(self), to_start, to_end),
    {
        if self.line == self.lines.len() - 1 {
            return ;
        }
        let ghost pre = *old(self);
        self.line += 1;
        let w: usize = self.current_line_cols();
        if w < self.column {
            self.column = if w == 0 {
                0
            } else {
                w - 1
            };
        }
        let start: usize = self.lines[self.line - 1];
        proof {
            assert(start <= pre.lines@[self.line as int]);
            assert(pre.lines@[self.line as int] <= pre.lines@[pre.lines@.len() - 1]);
            assert(start + self.column <= pre.content@.len());
        }
        self.cursor = start + self.column;
        if to_end {
            self.cursor = self.lines[self.line];
            self.column = w;
        }
        if to_start {
            self.cursor = start;
            self.column = 0;
        }
        proof {
            assert(down_post(pre, *self, to_start, to_end));
        }
    }

    /// One navigation step; see `mv_post` for the exact effect of each
    /// direction and of the snap-to-start / snap-to-end modifiers.
    pub fn mv(&mut self, mv: Move, start: bool, end: bool)
        requires
            old(self).wf_loose(),
        ensures
            final(self).wf_loose(),
            mv_post(*old(self), *final(self), mv, start, end),
    {
        if self.content.len() == 0 {
            return ;
        }
        let ghost pre = *old(self);
        match mv {
            Move::Up => {
                self.mv_up(start, end);
            },
            Move::Down => {
                self.mv_down(start, end);
                proof {
                    lemma_down_preserves_loose(pre, *self, start, end);
                }
            },
            Move::Left => {
                if 0 < self.column {
                    proof {
                        assert(self.cursor as int == line_start(pre.lines@, pre.line as int)
                            + pre.column);
                    }
                    self.column -= 1;
                    self.cursor -= 1;
                    assert(self.wf_loose());
                } else {
                    self.mv_up(false, true);
                }
            },
            Move::Right => {
                let w: usize = self.current_line_cols();
                if self.column < w {
                    proof {
                        assert(self.cursor as int == line_start(pre.lines@, pre.line as int)
                            + pre.column);
                        assert(pre.lines@[pre.line as int] <= pre.content@.len());
                    }
                    let prev: usize = self.column;
                    self.column += 1;
                    self.cursor += 1;
                    if prev == w - 1 {
                        let ghost mid = *self;
                        self.mv_down(true, false);
                        proof {
                            assert(mid.wf_loose());
                            lemma_down_preserves_loose(mid, *self, true, false);
                            assert(right_post(pre, *self));
                        }
                    } else {
                        assert(self.wf_loose());
                        assert(right_post(pre, *self));
                    }
                }
            },
        }
    }
}

} // verus!
