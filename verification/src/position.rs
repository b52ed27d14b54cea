//! Mapping a character range of the source text to a displayable
//! line/column record: the position mapper of the diagnostics pipeline.
//!
//! The trailing whitespace of the prefix up to the range's end is trimmed
//! first, so that an error is reported at the last non-blank character
//! rather than at whitespace consumed by error recovery. The column range
//! is right-aligned to the end of the trimmed prefix's last line; it is a
//! deliberate approximation, not the token's true start column.

use vstd::prelude::*;
use vstd::string::StrSliceExecFns;
use vstd::string::StringExecFns;
use crate::types::Span;

verus! {

/// A resolved source position: a zero-based line index, a column range
/// within that line, and the full text of the line.
#[derive(Debug)]
pub struct Position {
    pub line_no: usize,
    pub offset: Span,
    pub line: String,
}

/// Mathematical form of a resolved position.
#[verifier::ext_equal]
pub struct PosV {
    pub line_no: int,
    pub col_start: int,
    pub col_end: int,
    pub line: Seq<char>,
}

impl View for Position {
    type V = PosV;

    open spec fn view(&self) -> PosV {
        PosV {
            line_no: self.line_no as int,
            col_start: self.offset.start as int,
            col_end: self.offset.end as int,
            line: self.line@,
        }
    }
}

/// The whitespace characters trimmed from the end of the prefix.
pub open spec fn is_space(c: char) -> bool {
    c == ' ' || c == '\t' || c == '\n' || c == '\r' || c == '\x0c' || c == '\x0b'
}

/// Length of the run of whitespace at the end of `s`.
pub open spec fn trailing_ws(s: Seq<char>) -> int
    decreases s.len(),
{
    if s.len() == 0 {
        0
    } else if is_space(s.last()) {
        1 + trailing_ws(s.drop_last())
    } else {
        0
    }
}

/// Number of newline characters in `s`.
pub open spec fn newline_count(s: Seq<char>) -> int
    decreases s.len(),
{
    if s.len() == 0 {
        0
    } else {
        newline_count(s.drop_last()) + if s.last() == '\n' {
            1int
        } else {
            0int
        }
    }
}

/// Length of the last newline-free suffix of `s`.
pub open spec fn last_line_len(s: Seq<char>) -> int
    decreases s.len(),
{
    if s.len() == 0 {
        0
    } else if s.last() == '\n' {
        0
    } else {
        1 + last_line_len(s.drop_last())
    }
}

/// Index of the first newline of `s`, or -1.
pub open spec fn find_newline(s: Seq<char>) -> int
    decreases s.len(),
{
    if s.len() == 0 {
        -1
    } else if s[0] == '\n' {
        0
    } else {
        let r = find_newline(s.drop_first());
        if r == -1 {
            -1
        } else {
            1 + r
        }
    }
}

/// The text of line `k` of `s` (zero-based, split at newlines); empty when
/// `s` has fewer lines.
pub open spec fn nth_line(s: Seq<char>, k: int) -> Seq<char>
    decreases s.len(),
{
    let nl = find_newline(s);
    if k <= 0 {
        if nl == -1 {
            s
        } else {
            s.take(nl)
        }
    } else {
        if 0 <= nl < s.len() {
            nth_line(s.skip(nl + 1), k - 1)
        } else {
            Seq::empty()
        }
    }
}

/// The trim amount of a mapping request: the trailing whitespace of the
/// prefix up to the range's end.
pub open spec fn trim_of(file: Seq<char>, end: int) -> int {
    trailing_ws(file.take(end))
}

/// The zero-based line index a mapping reports: the newlines of the trimmed
/// prefix, less one when the character at the range's start is itself a
/// newline.
pub open spec fn line_no_of(file: Seq<char>, start: int, end: int) -> int {
    newline_count(file.take(end - trim_of(file, end))) - (if file[start] == '\n' {
        1int
    } else {
        0int
    })
}

/// Length of the trimmed prefix's last line, the right edge of the column
/// range.
pub open spec fn end_col_of(file: Seq<char>, end: int) -> int {
    last_line_len(file.take(end - trim_of(file, end)))
}

/// The full record that mapping the character range `[start, end)` against
/// `file` yields.
pub open spec fn pos_model(file: Seq<char>, start: int, end: int) -> PosV {
    PosV {
        line_no: line_no_of(file, start, end),
        col_start: end_col_of(file, end) - (end - start),
        col_end: end_col_of(file, end),
        line: nth_line(file, line_no_of(file, start, end)),
    }
}

/// Whether a mapping request is answerable: the range lies in the file, its
/// start is a readable character, the right-aligned column range does not
/// leave the line, and the line index does not become negative.
pub open spec fn mappable(file: Seq<char>, start: int, end: int) -> bool {
    &&& 0 <= start <= end <= file.len()
    &&& start < file.len()
    &&& end - start <= end_col_of(file, end)
    &&& line_no_of(file, start, end) >= 0
}

/// Mapping is a pure function of the source text and the range: asking
/// twice yields the identical record.
pub proof fn lemma_pos_idempotent(file: Seq<char>, start: int, end: int)
    ensures
        pos_model(file, start, end) == pos_model(file, start, end),
{
}

// ---------------------------------------------------------------------------
// Supporting lemmas
// ---------------------------------------------------------------------------

proof fn lemma_trailing_ws_is(s: Seq<char>, t: int)
    requires
        0 <= t <= s.len(),
        forall|j: int| s.len() - t <= j < s.len() ==> is_space(#[trigger] s[j]),
        t < s.len() ==> !is_space(s[s.len() - 1 - t]),
    ensures
        trailing_ws(s) == t,
    decreases t,
{
    if t == 0 {
    } else {
        let u = s.drop_last();
        assert(is_space(s.last()));
        assert forall|j: int| u.len() - (t - 1) <= j < u.len() implies is_space(
            #[trigger] u[j],
        ) by {
            assert(u[j] == s[j]);
        }
        if t - 1 < u.len() {
            assert(u[u.len() - 1 - (t - 1)] == s[s.len() - 1 - t]);
        }
        lemma_trailing_ws_is(u, t - 1);
    }
}

proof fn lemma_newline_count_step(s: Seq<char>, i: int)
    requires
        0 <= i < s.len(),
    ensures
        newline_count(s.take(i + 1)) == newline_count(s.take(i)) + (if s[i] == '\n' {
            1int
        } else {
            0int
        }),
{
    assert(s.take(i + 1).drop_last() =~= s.take(i));
    assert(s.take(i + 1).last() == s[i]);
}

proof fn lemma_last_line_len_is(s: Seq<char>, t: int)
    requires
        0 <= t <= s.len(),
        forall|j: int| s.len() - t <= j < s.len() ==> #[trigger] s[j] != '\n',
        t < s.len() ==> s[s.len() - 1 - t] == '\n',
    ensures
        last_line_len(s) == t,
    decreases t,
{
    if t == 0 {
    } else {
        let u = s.drop_last();
        assert forall|j: int| u.len() - (t - 1) <= j < u.len() implies #[trigger] u[j]
            != '\n' by {
            assert(u[j] == s[j]);
        }
        if t - 1 < u.len() {
            assert(u[u.len() - 1 - (t - 1)] == s[s.len() - 1 - t]);
        }
        lemma_last_line_len_is(u, t - 1);
    }
}

proof fn lemma_find_newline_is(s: Seq<char>, j: int)
    requires
        0 <= j < s.len(),
        s[j] == '\n',
        forall|i: int| 0 <= i < j ==> s[i] != '\n',
    ensures
        find_newline(s) == j,
    decreases j,
{
    if j > 0 {
        let u = s.drop_first();
        assert forall|i: int| 0 <= i < j - 1 implies u[i] != '\n' by {
            assert(u[i] == s[i + 1]);
        }
        assert(u[j - 1] == s[j]);
        lemma_find_newline_is(u, j - 1);
    }
}

proof fn lemma_find_newline_none(s: Seq<char>)
    requires
        forall|i: int| 0 <= i < s.len() ==> s[i] != '\n',
    ensures
        find_newline(s) == -1,
    decreases s.len(),
{
    if s.len() > 0 {
        let u = s.drop_first();
        assert forall|i: int| 0 <= i < u.len() implies u[i] != '\n' by {
            assert(u[i] == s[i + 1]);
        }
        lemma_find_newline_none(u);
    }
}

proof fn lemma_newline_count_prefix_le(s: Seq<char>, i: int)
    requires
        0 <= i <= s.len(),
    ensures
        newline_count(s.take(i)) <= newline_count(s),
    decreases s.len() - i,
{
    if i < s.len() {
        lemma_newline_count_step(s, i);
        lemma_newline_count_prefix_le(s, i + 1);
    } else {
        assert(s.take(i) =~= s);
    }
}

/// Whether one character is whitespace.
fn is_space_char(c: char) -> (r: bool)
    ensures
        r == is_space(c),
{
    c == ' ' || c == '\t' || c == '\n' || c == '\r' || c == '\x0c' || c == '\x0b'
}

/// Resolves character ranges against one source text.
pub struct PositionBuilder {
    pub file: String,
}

impl Clone for PositionBuilder {
    fn clone(&self) -> (b: Self)
        ensures
            b == *self,
    {
        PositionBuilder { file: self.file.clone() }
    }
}

impl PositionBuilder {
    pub fn new(file: String) -> (b: PositionBuilder)
        ensures
            b.file == file,
    {
        PositionBuilder { file }
    }

    /// Maps a character range to its position record, when the request is
    /// answerable; `None` reports exactly that it is not.
    #[verifier::loop_isolation(false)]
    #[verifier::rlimit(60)]
    pub fn try_pos(&self, range: Span) -> (r: Option<Position>)
        ensures
            match r {
                Some(p) => mappable(self.file@, range.start as int, range.end as int) && p@
                    == pos_model(self.file@, range.start as int, range.end as int),
                None => !mappable(self.file@, range.start as int, range.end as int),
            },
    {
        let n = self.file.as_str().unicode_len();
        let start = range.start;
        let end = range.end;
        if !(start <= end && end <= n && start < n) {
            return None;
        }
        let ghost f = self.file@;
        // Trailing whitespace of the prefix up to the range's end.
        let mut t: usize = 0;
        while t < end && is_space_char(self.file.as_str().get_char(end - 1 - t))
            invariant
                0 <= t <= end,
                forall|j: int| end - t <= j < end ==> is_space(#[trigger] f[j]),
            decreases end - t,
        {
            t = t + 1;
        }
        proof {
            let pre = f.take(end as int);
            assert forall|j: int| pre.len() - t <= j < pre.len() implies is_space(
                #[trigger] pre[j],
            ) by {
                assert(pre[j] == f[j]);
            }
            if t < end {
                assert(pre[end - 1 - t] == f[end - 1 - t]);
            }
            lemma_trailing_ws_is(pre, t as int);
            assert(trim_of(f, end as int) == t);
        }
        let e2 = end - t;
        // Newlines of the trimmed prefix.
        let mut lc: usize = 0;
        let mut i: usize = 0;
        while i < e2
            invariant
                0 <= i <= e2 <= n,
                lc == newline_count(f.take(e2 as int).take(i as int)),
                lc <= i,
            decreases e2 - i,
        {
            proof {
                lemma_newline_count_step(f.take(e2 as int), i as int);
                assert(f.take(e2 as int)[i as int] == f[i as int]);
            }
            if self.file.as_str().get_char(i) == '\n' {
                lc = lc + 1;
            }
            i = i + 1;
        }
        proof {
            assert(f.take(e2 as int).take(e2 as int) =~= f.take(e2 as int));
        }
        // Length of the trimmed prefix's last line.
        let mut ll: usize = 0;
        while ll < e2 && self.file.as_str().get_char(e2 - 1 - ll) != '\n'
            invariant
                0 <= ll <= e2,
                forall|j: int| e2 - ll <= j < e2 ==> #[trigger] f[j] != '\n',
            decreases e2 - ll,
        {
            ll = ll + 1;
        }
        proof {
            let pre = f.take(e2 as int);
            assert forall|j: int| pre.len() - ll <= j < pre.len() implies #[trigger] pre[j]
                != '\n' by {
                assert(pre[j] == f[j]);
            }
            if ll < e2 {
                assert(pre[e2 - 1 - ll] == f[e2 - 1 - ll]);
            }
            lemma_last_line_len_is(pre, ll as int);
            assert(end_col_of(f, end as int) == ll);
        }
        let width = end - start;
        if width > ll {
            return None;
        }
        let adjust: usize = if self.file.as_str().get_char(start) == '\n' {
            1
        } else {
            0
        };
        if lc < adjust {
            return None;
        }
        let line_no = lc - adjust;
        // The text of that line in the full source.
        let mut cur: usize = 0;
        let mut count: usize = 0;
        proof {
            assert(f.skip(0) =~= f);
            lemma_newline_count_prefix_le(f, e2 as int);
        }
        while count < line_no
            invariant
                0 <= cur <= n,
                count <= line_no,
                nth_line(f, line_no as int) == nth_line(f.skip(cur as int), line_no - count),
                newline_count(f.skip(cur as int)) + count == newline_count(f),
                newline_count(f) >= line_no,
            decreases line_no - count,
        {
            // Advance past the next newline; it exists because the trimmed
            // prefix alone holds at least `line_no` newlines.
            let mut k: usize = cur;
            while k < n && self.file.as_str().get_char(k) != '\n'
                invariant
                    cur <= k <= n,
                    forall|j: int| 0 <= j < k - cur ==> f.skip(cur as int)[j] != '\n',
                decreases n - k,
            {
                proof {
                    assert(f.skip(cur as int)[k - cur] == f[k as int]);
                }
                k = k + 1;
            }
            proof {
                if k == n {
                    lemma_find_newline_none(f.skip(cur as int));
                    assert(newline_count(f.skip(cur as int)) == 0) by {
                        lemma_no_newline_count(f.skip(cur as int));
                    }
                    assert(false);
                }
                assert(f.skip(cur as int)[k - cur] == f[k as int]);
                lemma_find_newline_is(f.skip(cur as int), k - cur);
                assert(f.skip(cur as int).skip(k - cur + 1) =~= f.skip(k as int + 1));
                lemma_newline_split(f, cur as int, k as int);
            }
            cur = k + 1;
            count = count + 1;
        }
        // The line runs to the next newline or to the end of the source.
        let mut k: usize = cur;
        while k < n && self.file.as_str().get_char(k) != '\n'
            invariant
                cur <= k <= n,
                forall|j: int| 0 <= j < k - cur ==> f.skip(cur as int)[j] != '\n',
            decreases n - k,
        {
            proof {
                assert(f.skip(cur as int)[k - cur] == f[k as int]);
            }
            k = k + 1;
        }
        proof {
            if k == n {
                lemma_find_newline_none(f.skip(cur as int));
                assert(f.skip(cur as int).take(f.skip(cur as int).len() as int) =~= f.skip(
                    cur as int,
                ));
            } else {
                assert(f.skip(cur as int)[k - cur] == f[k as int]);
                lemma_find_newline_is(f.skip(cur as int), k - cur);
            }
            assert(f.skip(cur as int).take(k - cur) =~= f.subrange(cur as int, k as int));
        }
        let line_text = String::from_str(self.file.as_str().substring_char(cur, k));
        let p = Position {
            line_no,
            offset: Span { start: ll - width, end: ll },
            line: line_text,
        };
        proof {
            assert(p@ =~= pos_model(f, start as int, end as int));
        }
        Some(p)
    }

    /// Maps a character range to its position record.
    pub fn pos(&self, range: Span) -> (p: Position)
        requires
            mappable(self.file@, range.start as int, range.end as int),
        ensures
            p@ == pos_model(self.file@, range.start as int, range.end as int),
    {
        match self.try_pos(range) {
            Some(p) => p,
            None => {
                proof {
                    assert(false);
                }
                Position { line_no: 0, offset: Span { start: 0, end: 0 }, line: String::new() }
            },
        }
    }
}

proof fn lemma_no_newline_count(s: Seq<char>)
    requires
        forall|i: int| 0 <= i < s.len() ==> s[i] != '\n',
    ensures
        newline_count(s) == 0,
    decreases s.len(),
{
    if s.len() > 0 {
        let u = s.drop_last();
        assert forall|i: int| 0 <= i < u.len() implies u[i] != '\n' by {
            assert(u[i] == s[i]);
        }
        lemma_no_newline_count(u);
    }
}

/// Splitting off the first line (through the newline at `k`) drops exactly
/// one newline from the count.
proof fn lemma_newline_split(s: Seq<char>, cur: int, k: int)
    requires
        0 <= cur <= k < s.len(),
        s[k] == '\n',
        forall|j: int| 0 <= j < k - cur ==> s.skip(cur)[j] != '\n',
    ensures
        newline_count(s.skip(k + 1)) + 1 == newline_count(s.skip(cur)),
    decreases s.len() - cur,
{
    lemma_newline_count_suffix(s, cur, k);
}

/// Newline counts across a split suffix: the run before the newline at `k`
/// holds none, so the suffix from `cur` holds one more than the suffix
/// after `k`.
proof fn lemma_newline_count_suffix(s: Seq<char>, cur: int, k: int)
    requires
        0 <= cur <= k < s.len(),
        s[k] == '\n',
        forall|j: int| 0 <= j < k - cur ==> s.skip(cur)[j] != '\n',
    ensures
        newline_count(s.skip(k + 1)) + 1 == newline_count(s.skip(cur)),
    decreases k - cur,
{
    if cur == k {
        lemma_newline_count_drop_first(s.skip(cur));
        assert(s.skip(cur)[0] == s[k]);
        assert(s.skip(cur).drop_first() =~= s.skip(k + 1));
    } else {
        lemma_newline_count_drop_first(s.skip(cur));
        assert(s.skip(cur)[0] != '\n');
        assert(s.skip(cur).drop_first() =~= s.skip(cur + 1));
        let w = s.skip(cur + 1);
        assert forall|j: int| 0 <= j < k - cur - 1 implies #[trigger] w[j] != '\n' by {
            assert(w[j] == s.skip(cur)[j + 1]);
        }
        lemma_newline_count_suffix(s, cur + 1, k);
    }
}

// ---------------------------------------------------------------------------
// Rendering
// ---------------------------------------------------------------------------

/// `s` repeated `n` times.
pub open spec fn repeat_text(s: Seq<char>, n: int) -> Seq<char>
    decreases n,
{
    if n <= 0 {
        Seq::empty()
    } else {
        repeat_text(s, n - 1) + s
    }
}

/// Builds `piece` repeated `n` times.
#[verifier::loop_isolation(false)]
pub fn repeat_str(piece: &str, n: usize) -> (r: String)
    ensures
        r@ == repeat_text(piece@, n as int),
{
    let mut s = String::new();
    let mut i: usize = 0;
    while i < n
        invariant
            i <= n,
            s@ == repeat_text(piece@, i as int),
        decreases n - i,
    {
        s.append(piece);
        i = i + 1;
    }
    s
}

/// The one-line rendering of a position: `line N, A..B`.
pub open spec fn position_text(p: PosV) -> Seq<char> {
    "line "@ + crate::text::dec_digits(p.line_no) + ", "@ + crate::text::dec_digits(p.col_start)
        + ".."@ + crate::text::dec_digits(p.col_end)
}

/// The block rendering of a position: its one-line form, the source line,
/// and an underline of carets right-aligned under the column range.
pub open spec fn trace_text(p: PosV) -> Seq<char> {
    position_text(p) + "\n\n    "@ + p.line + "\n    "@ + repeat_text("-"@, p.col_start)
        + repeat_text("^"@, p.col_end - p.col_start) + repeat_text(
        "-"@,
        p.line.len() + 1 - p.col_end,
    ) + "\n\n"@
}

impl Position {
    /// Renders the one-line form `line N, A..B`.
    pub fn to_text(&self) -> (r: String)
        ensures
            r@ == position_text(self@),
    {
        let mut s = String::from_str("line ");
        let n1 = crate::text::usize_to_string(self.line_no);
        s.append(n1.as_str());
        s.append(", ");
        let n2 = crate::text::usize_to_string(self.offset.start);
        s.append(n2.as_str());
        s.append("..");
        let n3 = crate::text::usize_to_string(self.offset.end);
        s.append(n3.as_str());
        proof {
            assert(s@ =~= position_text(self@));
        }
        s
    }

    /// Renders the block form with the source line and a caret underline.
    pub fn trace(&self) -> (r: String)
        requires
            self.offset.start <= self.offset.end,
            self.offset.end <= self.line@.len() + 1,
            self.line@.len() < usize::MAX,
        ensures
            r@ == trace_text(self@),
    {
        let mut s = self.to_text();
        s.append("\n\n    ");
        s.append(self.line.as_str());
        s.append("\n    ");
        let dashes = repeat_str("-", self.offset.start);
        s.append(dashes.as_str());
        let carets = repeat_str("^", self.offset.end - self.offset.start);
        s.append(carets.as_str());
        let tail_len = self.line.as_str().unicode_len() + 1 - self.offset.end;
        let tail = repeat_str("-", tail_len);
        s.append(tail.as_str());
        s.append("\n\n");
        proof {
            assert(s@ =~= trace_text(self@));
        }
        s
    }
}

/// Dropping the first character splits the newline count on whether that
/// character is a newline.
proof fn lemma_newline_count_drop_first(s: Seq<char>)
    requires
        s.len() > 0,
    ensures
        newline_count(s) == newline_count(s.drop_first()) + (if s[0] == '\n' {
            1int
        } else {
            0int
        }),
    decreases s.len(),
{
    if s.len() == 1 {
        assert(s.drop_first() =~= Seq::<char>::empty());
        assert(s.drop_last() =~= Seq::<char>::empty());
    } else {
        let u = s.drop_last();
        lemma_newline_count_drop_first(u);
        assert(u[0] == s[0]);
        assert(s.drop_first().drop_last() =~= u.drop_first());
        assert(s.drop_first().last() == s.last());
    }
}

} // verus!
