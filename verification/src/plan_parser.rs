//! Plan parser and marker rewriter.
//!
//! A plan file is a UTF-8 text whose lines may carry a `[USER...]` marker.
//! `parse_plan_content` extracts the marked lines as actions;
//! `update_plan_markers` replaces markers with the canonical form for a new
//! status while keeping every other character of the file exactly as it was.

use vstd::prelude::*;

use crate::external::now_millis;
use crate::user_action::canon_marker;
use crate::user_action::ActionStatus;
use crate::user_action::UserAction;

verus! {

// ---------------------------------------------------------------------------
// Characters
// ---------------------------------------------------------------------------

/// Whitespace, as stripped around markers and titles: the Unicode
/// White_Space characters.
pub open spec fn is_sp(c: char) -> bool {
    ||| c == ' '
    ||| c == '\t'
    ||| c == '\n'
    ||| c == '\u{000B}'
    ||| c == '\u{000C}'
    ||| c == '\r'
    ||| c == '\u{0085}'
    ||| c == '\u{00A0}'
    ||| c == '\u{1680}'
    ||| c == '\u{2000}'
    ||| c == '\u{2001}'
    ||| c == '\u{2002}'
    ||| c == '\u{2003}'
    ||| c == '\u{2004}'
    ||| c == '\u{2005}'
    ||| c == '\u{2006}'
    ||| c == '\u{2007}'
    ||| c == '\u{2008}'
    ||| c == '\u{2009}'
    ||| c == '\u{200A}'
    ||| c == '\u{2028}'
    ||| c == '\u{2029}'
    ||| c == '\u{202F}'
    ||| c == '\u{205F}'
    ||| c == '\u{3000}'
}

/// Executable whitespace test.
fn is_sp_exec(c: char) -> (r: bool)
    ensures
        r == is_sp(c),
{
    match c {
        ' ' | '\t' | '\n' | '\u{000B}' | '\u{000C}' | '\r' | '\u{0085}' | '\u{00A0}'
        | '\u{1680}' | '\u{2000}' | '\u{2001}' | '\u{2002}' | '\u{2003}' | '\u{2004}'
        | '\u{2005}' | '\u{2006}' | '\u{2007}' | '\u{2008}' | '\u{2009}' | '\u{200A}'
        | '\u{2028}' | '\u{2029}' | '\u{202F}' | '\u{205F}' | '\u{3000}' => true,
        _ => false,
    }
}

/// ASCII lowercasing, the only case folding the marker grammar needs.
pub open spec fn lc(c: char) -> char {
    if c == 'A' {
        'a'
    } else if c == 'B' {
        'b'
    } else if c == 'C' {
        'c'
    } else if c == 'D' {
        'd'
    } else if c == 'E' {
        'e'
    } else if c == 'F' {
        'f'
    } else if c == 'G' {
        'g'
    } else if c == 'H' {
        'h'
    } else if c == 'I' {
        'i'
    } else if c == 'J' {
        'j'
    } else if c == 'K' {
        'k'
    } else if c == 'L' {
        'l'
    } else if c == 'M' {
        'm'
    } else if c == 'N' {
        'n'
    } else if c == 'O' {
        'o'
    } else if c == 'P' {
        'p'
    } else if c == 'Q' {
        'q'
    } else if c == 'R' {
        'r'
    } else if c == 'S' {
        's'
    } else if c == 'T' {
        't'
    } else if c == 'U' {
        'u'
    } else if c == 'V' {
        'v'
    } else if c == 'W' {
        'w'
    } else if c == 'X' {
        'x'
    } else if c == 'Y' {
        'y'
    } else if c == 'Z' {
        'z'
    } else {
        c
    }
}

/// ASCII lowercasing of a whole sequence.
pub open spec fn lc_seq(s: Seq<char>) -> Seq<char> {
    s.map_values(|c: char| lc(c))
}

/// Executable ASCII lowercasing.
pub(crate) fn lc_char(c: char) -> (r: char)
    ensures
        r == lc(c),
{
    match c {
        'A' => 'a',
        'B' => 'b',
        'C' => 'c',
        'D' => 'd',
        'E' => 'e',
        'F' => 'f',
        'G' => 'g',
        'H' => 'h',
        'I' => 'i',
        'J' => 'j',
        'K' => 'k',
        'L' => 'l',
        'M' => 'm',
        'N' => 'n',
        'O' => 'o',
        'P' => 'p',
        'Q' => 'q',
        'R' => 'r',
        'S' => 's',
        'T' => 't',
        'U' => 'u',
        'V' => 'v',
        'W' => 'w',
        'X' => 'x',
        'Y' => 'y',
        'Z' => 'z',
        _ => c,
    }
}

/// The characters of a string, as a vector the scanners can index.
pub(crate) fn str_to_chars(s: &str) -> (v: Vec<char>)
    ensures
        v@ == s@,
{
    let n = s.unicode_len();
    let mut v: Vec<char> = Vec::new();
    let mut i: usize = 0;
    while i < n
        invariant
            i == v@.len() <= n == s@.len(),
            v@ == s@.take(i as int),
        decreases n - i,
    {
        v.push(s.get_char(i));
        i = i + 1;
        proof {
            assert(v@ =~= s@.take(i as int));
        }
    }
    proof {
        assert(v@ =~= s@);
    }
    v
}

// ---------------------------------------------------------------------------
// Scanning primitives: each spec function has an executable twin.
// ---------------------------------------------------------------------------

/// First index `>= i` holding a character that is not horizontal whitespace,
/// or the length when only whitespace remains.
pub open spec fn skip_sp(s: Seq<char>, i: int) -> int
    decreases s.len() - i,
{
    if i < 0 || i >= s.len() {
        s.len() as int
    } else if is_sp(s[i]) {
        skip_sp(s, i + 1)
    } else {
        i
    }
}

proof fn lemma_skip_sp_bounds(s: Seq<char>, i: int)
    requires
        0 <= i <= s.len(),
    ensures
        i <= skip_sp(s, i) <= s.len(),
        forall|j: int| i <= j < skip_sp(s, i) ==> is_sp(s[j]),
        skip_sp(s, i) < s.len() ==> !is_sp(s[skip_sp(s, i)]),
    decreases s.len() - i,
{
    if i < s.len() && is_sp(s[i]) {
        lemma_skip_sp_bounds(s, i + 1);
    }
}

fn skip_sp_exec(v: &Vec<char>, i: usize) -> (r: usize)
    requires
        i <= v@.len(),
    ensures
        r == skip_sp(v@, i as int),
        i <= r <= v@.len(),
{
    let n = v.len();
    let mut j: usize = i;
    while j < n && is_sp_exec(v[j])
        invariant
            i <= j <= n == v@.len(),
            skip_sp(v@, i as int) == skip_sp(v@, j as int),
        decreases n - j,
    {
        j = j + 1;
    }
    j
}

/// Last index `<= j` such that everything from it up to `j` is whitespace;
/// scanning backward from `j` over horizontal whitespace.
pub open spec fn rskip_sp(s: Seq<char>, j: int) -> int
    decreases j,
{
    if j <= 0 || j > s.len() {
        0
    } else if is_sp(s[j - 1]) {
        rskip_sp(s, j - 1)
    } else {
        j
    }
}

proof fn lemma_rskip_sp_bounds(s: Seq<char>, j: int)
    requires
        0 <= j <= s.len(),
    ensures
        0 <= rskip_sp(s, j) <= j,
        forall|k: int| rskip_sp(s, j) <= k < j ==> is_sp(s[k]),
        rskip_sp(s, j) > 0 ==> !is_sp(s[rskip_sp(s, j) - 1]),
    decreases j,
{
    if j > 0 && is_sp(s[j - 1]) {
        lemma_rskip_sp_bounds(s, j - 1);
    }
}

/// A non-space character below `j` keeps the backward scan above it.
proof fn lemma_rskip_sp_above(s: Seq<char>, j: int, i: int)
    requires
        0 <= i < j <= s.len(),
        !is_sp(s[i]),
    ensures
        rskip_sp(s, j) > i,
    decreases j,
{
    if j - 1 > i && is_sp(s[j - 1]) {
        lemma_rskip_sp_above(s, j - 1, i);
    }
}

fn rskip_sp_exec(v: &Vec<char>, j: usize) -> (r: usize)
    requires
        j <= v@.len(),
    ensures
        r == rskip_sp(v@, j as int),
        r <= j,
{
    let mut k: usize = j;
    while k > 0 && is_sp_exec(v[k - 1])
        invariant
            k <= j <= v@.len(),
            rskip_sp(v@, j as int) == rskip_sp(v@, k as int),
        decreases k,
    {
        k = k - 1;
    }
    k
}

/// First index `>= i` holding `']'`, or the length when there is none.
pub open spec fn find_close_from(s: Seq<char>, i: int) -> int
    decreases s.len() - i,
{
    if i < 0 || i >= s.len() {
        s.len() as int
    } else if s[i] == ']' {
        i
    } else {
        find_close_from(s, i + 1)
    }
}

proof fn lemma_find_close_bounds(s: Seq<char>, i: int)
    requires
        0 <= i <= s.len(),
    ensures
        i <= find_close_from(s, i) <= s.len(),
        forall|j: int| i <= j < find_close_from(s, i) ==> s[j] != ']',
        find_close_from(s, i) < s.len() ==> s[find_close_from(s, i)] == ']',
    decreases s.len() - i,
{
    if i < s.len() && s[i] != ']' {
        lemma_find_close_bounds(s, i + 1);
    }
}

fn find_close_exec(v: &Vec<char>, i: usize) -> (r: usize)
    requires
        i <= v@.len(),
    ensures
        r == find_close_from(v@, i as int),
        i <= r <= v@.len(),
{
    let n = v.len();
    let mut j: usize = i;
    while j < n && v[j] != ']'
        invariant
            i <= j <= n == v@.len(),
            find_close_from(v@, i as int) == find_close_from(v@, j as int),
        decreases n - j,
    {
        j = j + 1;
    }
    j
}

// ---------------------------------------------------------------------------
// Marker grammar
// ---------------------------------------------------------------------------

/// Where a line's own content starts: leading horizontal whitespace is
/// stripped, then at most one `-` that is followed by at least one whitespace
/// character, then whitespace again.
pub open spec fn content_start(s: Seq<char>) -> int {
    let j = skip_sp(s, 0);
    if j + 1 < s.len() && s[j] == '-' && is_sp(s[j + 1]) {
        skip_sp(s, j + 1)
    } else {
        j
    }
}

/// Whether `[USER` stands at index `i`, ignoring case.
pub open spec fn is_marker_start(s: Seq<char>, i: int) -> bool {
    &&& 0 <= i
    &&& i + 5 <= s.len()
    &&& s[i] == '['
    &&& lc(s[i + 1]) == 'u'
    &&& lc(s[i + 2]) == 's'
    &&& lc(s[i + 3]) == 'e'
    &&& lc(s[i + 4]) == 'r'
}

/// The status a marker token (brackets included) denotes.  Unknown `[user:*]`
/// tokens deliberately fall back to Pending.
pub open spec fn token_status(t: Seq<char>) -> ActionStatus {
    let l = lc_seq(t);
    if l == "[user:wip]"@ || l == "[user:inprogress]"@ || l == "[user:in_progress]"@ {
        ActionStatus::InProgress
    } else if l == "[user:done]"@ || l == "[user:completed]"@ {
        ActionStatus::Completed
    } else if l == "[user:skip]"@ || l == "[user:skipped]"@ {
        ActionStatus::Skipped
    } else {
        ActionStatus::Pending
    }
}

/// What a single line contributes to a parse: a title and a status, or
/// nothing.  A line counts only if its content starts with a `[USER` token
/// closed by `]`, and the text after the `]` is non-empty once trimmed.
pub open spec fn line_action(s: Seq<char>) -> Option<(Seq<char>, ActionStatus)> {
    let m = content_start(s);
    if !is_marker_start(s, m) {
        None
    } else {
        let k = find_close_from(s, m);
        if k >= s.len() {
            None
        } else {
            let a = skip_sp(s, k + 1);
            if a >= s.len() {
                None
            } else {
                Some((s.subrange(a, rskip_sp(s, s.len() as int)), token_status(s.subrange(m, k + 1))))
            }
        }
    }
}

/// Executable case-insensitive comparison of `v[lo..hi]` against a pattern.
pub(crate) fn ci_match(v: &Vec<char>, lo: usize, hi: usize, pat: &str) -> (r: bool)
    requires
        lo <= hi <= v@.len(),
    ensures
        r == (lc_seq(v@.subrange(lo as int, hi as int)) == pat@),
{
    let n = pat.unicode_len();
    if hi - lo != n {
        proof {
            assert(lc_seq(v@.subrange(lo as int, hi as int)).len() == hi - lo);
        }
        return false;
    }
    let mut i: usize = 0;
    while i < n
        invariant
            0 <= i <= n == pat@.len(),
            lo <= hi <= v@.len(),
            hi - lo == n,
            forall|j: int| 0 <= j < i ==> lc(#[trigger] v@.subrange(lo as int, hi as int)[j]) == pat@[j],
        decreases n - i,
    {
        if lc_char(v[lo + i]) != pat.get_char(i) {
            proof {
                let sub = v@.subrange(lo as int, hi as int);
                assert(lc_seq(sub)[i as int] == lc(sub[i as int]));
                assert(sub[i as int] == v@[lo + i]);
            }
            return false;
        }
        i = i + 1;
    }
    proof {
        let sub = v@.subrange(lo as int, hi as int);
        assert(lc_seq(sub) =~= pat@);
    }
    true
}

/// Executable classification of the marker token `v[m..k+1]`.
fn token_status_exec(v: &Vec<char>, m: usize, k: usize) -> (st: ActionStatus)
    requires
        m <= k < v@.len(),
    ensures
        st == token_status(v@.subrange(m as int, k + 1 as int)),
{
    let n = v.len();
    let hi = k + 1;
    if ci_match(v, m, hi, "[user:wip]") || ci_match(v, m, hi, "[user:inprogress]") || ci_match(
        v,
        m,
        hi,
        "[user:in_progress]",
    ) {
        ActionStatus::InProgress
    } else if ci_match(v, m, hi, "[user:done]") || ci_match(v, m, hi, "[user:completed]") {
        ActionStatus::Completed
    } else if ci_match(v, m, hi, "[user:skip]") || ci_match(v, m, hi, "[user:skipped]") {
        ActionStatus::Skipped
    } else {
        ActionStatus::Pending
    }
}

// ---------------------------------------------------------------------------
// Lines and terminators
// ---------------------------------------------------------------------------

/// How a line ends: with `\n`, with `\r\n`, or at the end of the content.
#[derive(Debug, Clone, Copy, PartialEq, Eq, Structural)]
pub enum LineEnd {
    Lf,
    CrLf,
    AtEof,
}

/// The characters a terminator contributes to the content.
pub open spec fn end_chars(e: LineEnd) -> Seq<char> {
    match e {
        LineEnd::Lf => "\n"@,
        LineEnd::CrLf => "\r\n"@,
        LineEnd::AtEof => Seq::empty(),
    }
}

/// First index `>= i` holding `'\n'`, or the length when there is none.
pub open spec fn find_nl_from(s: Seq<char>, i: int) -> int
    decreases s.len() - i,
{
    if i < 0 || i >= s.len() {
        s.len() as int
    } else if s[i] == '\n' {
        i
    } else {
        find_nl_from(s, i + 1)
    }
}

proof fn lemma_find_nl_bounds(s: Seq<char>, i: int)
    requires
        0 <= i <= s.len(),
    ensures
        i <= find_nl_from(s, i) <= s.len(),
        forall|j: int| i <= j < find_nl_from(s, i) ==> s[j] != '\n',
        find_nl_from(s, i) < s.len() ==> s[find_nl_from(s, i)] == '\n',
    decreases s.len() - i,
{
    if i < s.len() && s[i] != '\n' {
        lemma_find_nl_bounds(s, i + 1);
    }
}

fn find_nl_exec(v: &Vec<char>, i: usize) -> (r: usize)
    requires
        i <= v@.len(),
    ensures
        r == find_nl_from(v@, i as int),
        i <= r <= v@.len(),
{
    let n = v.len();
    let mut j: usize = i;
    while j < n && v[j] != '\n'
        invariant
            i <= j <= n == v@.len(),
            find_nl_from(v@, i as int) == find_nl_from(v@, j as int),
        decreases n - j,
    {
        j = j + 1;
    }
    j
}

/// The lines of the content from index `i` on, each body paired with the
/// terminator that closed it.  A `\r` immediately before a `\n` belongs to
/// the terminator, not to the body.
pub open spec fn segments_from(s: Seq<char>, i: int) -> Seq<(Seq<char>, LineEnd)>
    decreases s.len() - i,
    via segments_from_decreases
{
    if i < 0 || i >= s.len() {
        Seq::empty()
    } else {
        let k = find_nl_from(s, i);
        if k >= s.len() {
            seq![(s.subrange(i, s.len() as int), LineEnd::AtEof)]
        } else if k > i && s[k - 1] == '\r' {
            seq![(s.subrange(i, k - 1), LineEnd::CrLf)] + segments_from(s, k + 1)
        } else {
            seq![(s.subrange(i, k), LineEnd::Lf)] + segments_from(s, k + 1)
        }
    }
}

#[via_fn]
proof fn segments_from_decreases(s: Seq<char>, i: int) {
    if 0 <= i < s.len() {
        lemma_find_nl_bounds(s, i);
    }
}

/// The lines of a whole content.
pub open spec fn segments(s: Seq<char>) -> Seq<(Seq<char>, LineEnd)> {
    segments_from(s, 0)
}

/// Putting segments back together.
pub open spec fn flatten_segs(segs: Seq<(Seq<char>, LineEnd)>) -> Seq<char>
    decreases segs.len(),
{
    if segs.len() == 0 {
        Seq::empty()
    } else {
        segs[0].0 + end_chars(segs[0].1) + flatten_segs(segs.drop_first())
    }
}

/// There are never more lines than characters.
proof fn lemma_segments_count(s: Seq<char>, i: int)
    requires
        0 <= i <= s.len(),
    ensures
        segments_from(s, i).len() <= s.len() - i,
    decreases s.len() - i,
{
    if i < s.len() {
        let k = find_nl_from(s, i);
        lemma_find_nl_bounds(s, i);
        if k < s.len() {
            lemma_segments_count(s, k + 1);
        }
    }
}

/// An executable line map: for each line, where its body starts and ends in
/// the content, and how it is terminated.
struct LineSpan {
    start: usize,
    end: usize,
    lend: LineEnd,
}

/// Whether a span table matches the segment model of `s`.
spec fn spans_match(s: Seq<char>, spans: Seq<LineSpan>) -> bool {
    &&& spans_wf(s, spans)
    &&& segments(s) == spans_models(s, spans)
}

/// Split a content into its line spans.
fn split_lines(v: &Vec<char>) -> (spans: Vec<LineSpan>)
    ensures
        spans_match(v@, spans@),
{
    let s = Ghost(v@);
    let n = v.len();
    let mut spans: Vec<LineSpan> = Vec::new();
    let mut pos: usize = 0;
    while pos < n
        invariant
            0 <= pos <= n == s@.len(),
            s@ == v@,
            segments(s@) == spans_models(s@, spans@) + segments_from(s@, pos as int),
            spans_wf(s@, spans@),
        decreases n - pos,
    {
        let k = find_nl_exec(v, pos);
        proof {
            lemma_find_nl_bounds(s@, pos as int);
        }
        if k >= n {
            spans.push(LineSpan { start: pos, end: k, lend: LineEnd::AtEof });
            pos = n;
        } else if k > pos && v[k - 1] == '\r' {
            spans.push(LineSpan { start: pos, end: k - 1, lend: LineEnd::CrLf });
            pos = k + 1;
        } else {
            spans.push(LineSpan { start: pos, end: k, lend: LineEnd::Lf });
            pos = k + 1;
        }
    }
    proof {
        assert(segments_from(s@, pos as int) =~= Seq::<(Seq<char>, LineEnd)>::empty());
        assert(segments(s@) =~= spans_models(s@, spans@));
    }
    spans
}

/// The segment each span denotes.
spec fn spans_models(s: Seq<char>, spans: Seq<LineSpan>) -> Seq<(Seq<char>, LineEnd)> {
    spans.map_values(|p: LineSpan| (s.subrange(p.start as int, p.end as int), p.lend))
}

/// Every span lies inside the content.
spec fn spans_wf(s: Seq<char>, spans: Seq<LineSpan>) -> bool {
    forall|i: int| 0 <= i < spans.len() ==> (#[trigger] spans[i]).start <= spans[i].end <= s.len()
}

// ---------------------------------------------------------------------------
// Parsing
// ---------------------------------------------------------------------------

/// A user action extracted from one line of a plan file.
#[derive(Debug, Clone)]
pub struct ParsedAction {
    /// The action title: the text after the marker, trimmed.
    pub title: String,
    /// The 1-based line number the marker stands on.
    pub line_number: u32,
    /// The status the marker token denotes.
    pub status: ActionStatus,
}

/// The result of parsing one plan file.
#[derive(Debug)]
pub struct ParseResult {
    /// The path the content came from, as handed to the parser.
    pub source_file: String,
    /// The parsed actions, ordered by line number.
    pub actions: Vec<ParsedAction>,
}

/// The mathematical value of a parsed action: title, line number, status.
pub open spec fn parsed_model(a: ParsedAction) -> (Seq<char>, int, ActionStatus) {
    (a.title@, a.line_number as int, a.status)
}

/// The mathematical value of a whole parse.
pub open spec fn parsed_models(v: Seq<ParsedAction>) -> Seq<(Seq<char>, int, ActionStatus)> {
    v.map_values(|a: ParsedAction| parsed_model(a))
}

/// The actions the lines from `i` on contribute, with their 1-based numbers.
pub open spec fn actions_from(segs: Seq<(Seq<char>, LineEnd)>, i: int) -> Seq<
    (Seq<char>, int, ActionStatus),
>
    decreases segs.len() - i,
{
    if i < 0 || i >= segs.len() {
        Seq::empty()
    } else {
        match line_action(segs[i].0) {
            Option::None => actions_from(segs, i + 1),
            Option::Some(ta) => seq![(ta.0, i + 1, ta.1)] + actions_from(segs, i + 1),
        }
    }
}

/// Everything a content's marker lines say.
pub open spec fn plan_actions(s: Seq<char>) -> Seq<(Seq<char>, int, ActionStatus)> {
    actions_from(segments(s), 0)
}

/// Every action the lines from `i` on contribute stands on a line after `i`,
/// and the actions come in strictly ascending line order.
proof fn lemma_actions_increasing(segs: Seq<(Seq<char>, LineEnd)>, i: int)
    requires
        0 <= i,
    ensures
        forall|p: int|
            0 <= p < actions_from(segs, i).len() ==> i < (#[trigger] actions_from(segs, i)[p]).1
                <= segs.len(),
        forall|p: int, q: int|
            0 <= p < q < actions_from(segs, i).len() ==> actions_from(segs, i)[p].1
                < actions_from(segs, i)[q].1,
    decreases segs.len() - i,
{
    if i < segs.len() {
        lemma_actions_increasing(segs, i + 1);
        let cur = actions_from(segs, i);
        let rest = actions_from(segs, i + 1);
        match line_action(segs[i].0) {
            Option::None => {},
            Option::Some(ta) => {
                assert(cur == seq![(ta.0, i + 1, ta.1)] + rest);
                assert(forall|p: int| 1 <= p < cur.len() ==> cur[p] == rest[p - 1]);
            },
        }
    }
}

impl ParseResult {
    /// Turn the parsed actions into stored-action rows anchored to this
    /// file: each row carries the parsed title, line and status under the
    /// file's path, with fresh ids.
    pub fn into_user_actions(self) -> (r: Vec<UserAction>)
        ensures
            r@.len() == self.actions@.len(),
            forall|i: int|
                0 <= i < r@.len() ==> {
                    let a = self.actions@[i];
                    let u = #[trigger] r@[i];
                    &&& u.title@ == a.title@
                    &&& u.source_file matches Some(f) && f@ == self.source_file@
                    &&& u.line_number == Some(a.line_number)
                    &&& u.status == a.status
                    &&& u.plan_id is None
                    &&& u.description is None
                    &&& u.wf()
                },
    {
        let mut out: Vec<UserAction> = Vec::new();
        let n = self.actions.len();
        let mut i: usize = 0;
        while i < n
            invariant
                0 <= i <= n == self.actions@.len(),
                out@.len() == i,
                forall|k: int|
                    0 <= k < i ==> {
                        let a = self.actions@[k];
                        let u = #[trigger] out@[k];
                        &&& u.title@ == a.title@
                        &&& u.source_file matches Some(f) && f@ == self.source_file@
                        &&& u.line_number == Some(a.line_number)
                        &&& u.status == a.status
                        &&& u.plan_id is None
                        &&& u.description is None
                        &&& u.wf()
                    },
            decreases n - i,
        {
            let a = &self.actions[i];
            let mut u = UserAction::from_plan(
                a.title.clone(),
                self.source_file.clone(),
                a.line_number,
            );
            u.status = a.status;
            u.completed_at = if matches!(a.status, ActionStatus::Completed) {
                Some(now_millis())
            } else {
                None
            };
            out.push(u);
            i = i + 1;
        }
        out
    }
}

/// Parse a single line for a `[USER...]` marker.
pub fn parse_user_marker(line: &str, line_number: u32) -> (r: Option<ParsedAction>)
    ensures
        r is Some <==> line_action(line@) is Some,
        r matches Some(a) ==> line_action(line@) matches Some(la) && a.title@ == la.0 && a.status
            == la.1 && a.line_number == line_number,
{
    let v = str_to_chars(line);
    let n = v.len();
    let j = skip_sp_exec(&v, 0);
    let m: usize = if j < n && v[j] == '-' && j + 1 < n && is_sp_exec(v[j + 1]) {
        skip_sp_exec(&v, j + 1)
    } else {
        j
    };
    proof {
        assert(m == content_start(line@));
    }
    if !(n - m >= 5 && v[m] == '[' && lc_char(v[m + 1]) == 'u' && lc_char(v[m + 2]) == 's'
        && lc_char(v[m + 3]) == 'e' && lc_char(v[m + 4]) == 'r') {
        proof {
            assert(!is_marker_start(line@, m as int));
        }
        return None;
    }
    let k = find_close_exec(&v, m);
    if k >= n {
        return None;
    }
    let a = skip_sp_exec(&v, k + 1);
    if a >= n {
        return None;
    }
    let e = rskip_sp_exec(&v, n);
    proof {
        lemma_skip_sp_bounds(line@, k + 1 as int);
        lemma_rskip_sp_above(line@, n as int, a as int);
    }
    let title = line.substring_char(a, e).to_owned();
    let status = token_status_exec(&v, m, k);
    Some(ParsedAction { title, line_number, status })
}

/// Parse a markdown content for `[USER...]` markers, one candidate per line.
///
/// Line numbers are 1-based; the content must be small enough for them to
/// fit in a `u32`.
pub fn parse_plan_content(content: &str, source_file: &str) -> (r: ParseResult)
    requires
        content@.len() < 0x1_0000_0000,
    ensures
        r.source_file@ == source_file@,
        parsed_models(r.actions@) == plan_actions(content@),
        forall|p: int, q: int|
            0 <= p < q < r.actions@.len() ==> r.actions@[p].line_number < r.actions@[q].line_number,
{
    let v = str_to_chars(content);
    let spans = split_lines(&v);
    let ghost segs = segments(content@);
    proof {
        lemma_segments_count(content@, 0);
    }
    let mut actions: Vec<ParsedAction> = Vec::new();
    let n = spans.len();
    let mut i: usize = 0;
    while i < n
        invariant
            0 <= i <= n == spans@.len(),
            v@ == content@,
            content@.len() < 0x1_0000_0000,
            segs == segments(content@),
            spans@.len() == segs.len() <= content@.len(),
            spans_wf(content@, spans@),
            segments(content@) == spans_models(content@, spans@),
            actions_from(segs, 0) == parsed_models(actions@) + actions_from(segs, i as int),
            forall|p: int|
                0 <= p < actions@.len() ==> 1 <= (#[trigger] actions@[p]).line_number <= i,
            forall|p: int, q: int|
                0 <= p < q < actions@.len() ==> actions@[p].line_number < actions@[q].line_number,
        decreases n - i,
    {
        let span_start = spans[i].start;
        let span_end = spans[i].end;
        proof {
            assert(segs[i as int] == spans_models(content@, spans@)[i as int]);
        }
        let line = content.substring_char(span_start, span_end);
        proof {
            assert(line@ == segs[i as int].0);
        }
        let ghost prev = actions@;
        if let Some(a) = parse_user_marker(line, (i as u32) + 1) {
            actions.push(a);
            proof {
                let ta = line_action(segs[i as int].0).unwrap();
                assert(parsed_model(a) == (ta.0, i + 1 as int, ta.1));
                assert(parsed_models(actions@) =~= parsed_models(prev) + seq![
                    (ta.0, i + 1 as int, ta.1),
                ]);
                assert(actions_from(segs, i as int) == seq![(ta.0, i + 1 as int, ta.1)]
                    + actions_from(segs, i + 1 as int));
                assert(parsed_models(actions@) + actions_from(segs, i + 1 as int)
                    =~= parsed_models(prev) + actions_from(segs, i as int));
            }
        } else {
            proof {
                assert(actions_from(segs, i as int) == actions_from(segs, i + 1 as int));
            }
        }
        i = i + 1;
    }
    proof {
        assert(actions_from(segs, n as int) =~= Seq::<(Seq<char>, int, ActionStatus)>::empty());
        assert(parsed_models(actions@) + actions_from(segs, n as int) =~= parsed_models(actions@));
    }
    ParseResult { source_file: source_file.to_owned(), actions }
}

// ---------------------------------------------------------------------------
// Rewriting
// ---------------------------------------------------------------------------

/// First index `>= i` where `[USER` stands (ignoring case), or the length
/// when there is none.
pub open spec fn find_marker_from(s: Seq<char>, i: int) -> int
    decreases s.len() - i,
{
    if i < 0 || i + 5 > s.len() {
        s.len() as int
    } else if is_marker_start(s, i) {
        i
    } else {
        find_marker_from(s, i + 1)
    }
}

proof fn lemma_find_marker_bounds(s: Seq<char>, i: int)
    requires
        0 <= i <= s.len(),
    ensures
        i <= find_marker_from(s, i) <= s.len(),
        forall|j: int| i <= j < find_marker_from(s, i) ==> !is_marker_start(s, j),
        find_marker_from(s, i) < s.len() ==> is_marker_start(s, find_marker_from(s, i)),
    decreases s.len() - i,
{
    if i + 5 <= s.len() && !is_marker_start(s, i) {
        lemma_find_marker_bounds(s, i + 1);
    }
}

fn find_marker_exec(v: &Vec<char>, i: usize) -> (r: usize)
    requires
        i <= v@.len(),
    ensures
        r == find_marker_from(v@, i as int),
        i <= r <= v@.len(),
{
    let n = v.len();
    let mut j: usize = i;
    while j < n
        invariant
            i <= j <= n == v@.len(),
            find_marker_from(v@, i as int) == find_marker_from(v@, j as int),
        decreases n - j,
    {
        if n - j < 5 {
            return n;
        }
        if v[j] == '[' && lc_char(v[j + 1]) == 'u' && lc_char(v[j + 2]) == 's' && lc_char(
            v[j + 3],
        ) == 'e' && lc_char(v[j + 4]) == 'r' {
            return j;
        }
        j = j + 1;
    }
    n
}

/// What a single line becomes when its marker is replaced by the canonical
/// marker of `st`.  A line without a closed `[USER` token is left unchanged.
pub open spec fn rewrite_body(b: Seq<char>, st: ActionStatus) -> Seq<char> {
    let j = find_marker_from(b, 0);
    if j >= b.len() {
        b
    } else {
        let k = find_close_from(b, j);
        if k >= b.len() {
            b
        } else {
            b.subrange(0, j) + canon_marker(st) + b.subrange(k + 1, b.len() as int)
        }
    }
}

/// The update that applies to line `ln`: the last pair naming it, if any.
pub open spec fn upd_for(us: Seq<(u32, ActionStatus)>, ln: int) -> Option<ActionStatus>
    decreases us.len(),
{
    if us.len() == 0 {
        None
    } else if us.last().0 == ln {
        Some(us.last().1)
    } else {
        upd_for(us.drop_last(), ln)
    }
}

/// Rewriting, line by line: updated lines get their marker replaced, all
/// other lines and every terminator stay exactly as they were.
pub open spec fn rewrite_segs(
    segs: Seq<(Seq<char>, LineEnd)>,
    us: Seq<(u32, ActionStatus)>,
) -> Seq<(Seq<char>, LineEnd)> {
    segs.map(
        |i: int, g: (Seq<char>, LineEnd)|
            (
                match upd_for(us, i + 1) {
                    Option::Some(st) => rewrite_body(g.0, st),
                    Option::None => g.0,
                },
                g.1,
            ),
    )
}

/// The whole rewritten content.
pub open spec fn spec_rewrite(s: Seq<char>, us: Seq<(u32, ActionStatus)>) -> Seq<char> {
    flatten_segs(rewrite_segs(segments(s), us))
}

proof fn lemma_flatten_concat(a: Seq<(Seq<char>, LineEnd)>, b: Seq<(Seq<char>, LineEnd)>)
    ensures
        flatten_segs(a + b) == flatten_segs(a) + flatten_segs(b),
    decreases a.len(),
{
    if a.len() == 0 {
        assert(a + b =~= b);
        assert(flatten_segs(a) + flatten_segs(b) =~= flatten_segs(b));
    } else {
        lemma_flatten_concat(a.drop_first(), b);
        assert((a + b).drop_first() =~= a.drop_first() + b);
        assert(flatten_segs(a + b) =~= flatten_segs(a) + flatten_segs(b));
    }
}

proof fn lemma_flatten_take_step(segs: Seq<(Seq<char>, LineEnd)>, i: int)
    requires
        0 <= i < segs.len(),
    ensures
        flatten_segs(segs.take(i + 1)) == flatten_segs(segs.take(i)) + segs[i].0 + end_chars(
            segs[i].1,
        ),
{
    assert(segs.take(i + 1) =~= segs.take(i) + seq![segs[i]]);
    lemma_flatten_concat(segs.take(i), seq![segs[i]]);
    assert(seq![segs[i]].drop_first() =~= Seq::<(Seq<char>, LineEnd)>::empty());
    assert(flatten_segs(Seq::<(Seq<char>, LineEnd)>::empty()) == Seq::<char>::empty());
    assert(seq![segs[i]][0] == segs[i]);
    assert(flatten_segs(seq![segs[i]]) =~= segs[i].0 + end_chars(segs[i].1));
    assert(flatten_segs(segs.take(i)) + (segs[i].0 + end_chars(segs[i].1)) =~= flatten_segs(
        segs.take(i),
    ) + segs[i].0 + end_chars(segs[i].1));
}

fn upd_lookup(updates: &Vec<(u32, ActionStatus)>, ln: u32) -> (r: Option<ActionStatus>)
    ensures
        r == upd_for(updates@, ln as int),
{
    let mut i: usize = updates.len();
    proof {
        assert(updates@.take(i as int) =~= updates@);
    }
    while i > 0
        invariant
            0 <= i <= updates@.len(),
            upd_for(updates@, ln as int) == upd_for(updates@.take(i as int), ln as int),
        decreases i,
    {
        i = i - 1;
        proof {
            assert(updates@.take(i + 1 as int).drop_last() =~= updates@.take(i as int));
            assert(updates@.take(i + 1 as int).last() == updates@[i as int]);
        }
        if updates[i].0 == ln {
            return Some(updates[i].1);
        }
    }
    None
}

/// Replace a line's `[USER...]` marker with the canonical marker for a new
/// status.  Everything before the `[` and after the `]` is preserved.
pub fn update_line_marker(line: &str, new_status: ActionStatus) -> (r: String)
    ensures
        r@ == rewrite_body(line@, new_status),
{
    let v = str_to_chars(line);
    let n = v.len();
    let j = find_marker_exec(&v, 0);
    if j >= n {
        return line.to_owned();
    }
    let k = find_close_exec(&v, j);
    if k >= n {
        return line.to_owned();
    }
    let mut out = line.substring_char(0, j).to_owned();
    out.append(new_status.marker());
    out.append(line.substring_char(k + 1, n));
    out
}

/// Rewrite a plan content: for each `(line number, status)` pair, replace
/// that line's marker with the canonical marker of the status.  Lines not
/// named, and every line terminator, are kept byte for byte; when the same
/// line is named twice, the later pair wins.
pub fn update_plan_markers(content: &str, updates: &Vec<(u32, ActionStatus)>) -> (r: String)
    requires
        content@.len() < 0x1_0000_0000,
    ensures
        r@ == spec_rewrite(content@, updates@),
{
    let v = str_to_chars(content);
    let spans = split_lines(&v);
    let ghost segs = segments(content@);
    let ghost rsegs = rewrite_segs(segs, updates@);
    proof {
        lemma_segments_count(content@, 0);
    }
    let mut out = String::new();
    let n = spans.len();
    let mut i: usize = 0;
    while i < n
        invariant
            0 <= i <= n == spans@.len(),
            v@ == content@,
            content@.len() < 0x1_0000_0000,
            segs == segments(content@),
            rsegs == rewrite_segs(segs, updates@),
            rsegs.len() == segs.len(),
            spans@.len() == segs.len() <= content@.len(),
            spans_wf(content@, spans@),
            segments(content@) == spans_models(content@, spans@),
            out@ == flatten_segs(rsegs.take(i as int)),
        decreases n - i,
    {
        let span_start = spans[i].start;
        let span_end = spans[i].end;
        proof {
            assert(segs[i as int] == spans_models(content@, spans@)[i as int]);
            assert(rsegs[i as int].1 == segs[i as int].1);
        }
        let line = content.substring_char(span_start, span_end);
        proof {
            assert(line@ == segs[i as int].0);
        }
        match upd_lookup(updates, (i as u32) + 1) {
            Some(st) => {
                let rewritten = update_line_marker(line, st);
                out.append(rewritten.as_str());
                proof {
                    assert(rsegs[i as int].0 == rewrite_body(segs[i as int].0, st));
                }
            },
            None => {
                out.append(line);
                proof {
                    assert(rsegs[i as int].0 == segs[i as int].0);
                }
            },
        }
        match spans[i].lend {
            LineEnd::Lf => {
                out.append("\n");
            },
            LineEnd::CrLf => {
                out.append("\r\n");
            },
            LineEnd::AtEof => {},
        }
        proof {
            lemma_flatten_take_step(rsegs, i as int);
            assert(out@ =~= flatten_segs(rsegs.take(i + 1 as int)));
        }
        i = i + 1;
    }
    proof {
        assert(rsegs.take(n as int) =~= rsegs);
    }
    out
}

// ---------------------------------------------------------------------------
// Laws of the parser and rewriter
// ---------------------------------------------------------------------------

/// Splitting a content into lines and putting them back together is the
/// identity, terminators included.
proof fn lemma_segments_flatten(s: Seq<char>, i: int)
    requires
        0 <= i <= s.len(),
    ensures
        flatten_segs(segments_from(s, i)) == s.subrange(i, s.len() as int),
    decreases s.len() - i,
{
    reveal_strlit("\n");
    reveal_strlit("\r\n");
    if i >= s.len() {
        assert(flatten_segs(segments_from(s, i)) =~= s.subrange(i, s.len() as int));
    } else {
        let k = find_nl_from(s, i);
        lemma_find_nl_bounds(s, i);
        if k >= s.len() {
            let segs = segments_from(s, i);
            assert(segs =~= seq![(s.subrange(i, s.len() as int), LineEnd::AtEof)]);
            assert(segs.drop_first() =~= Seq::<(Seq<char>, LineEnd)>::empty());
            assert(flatten_segs(Seq::<(Seq<char>, LineEnd)>::empty()) == Seq::<char>::empty());
            assert(flatten_segs(segs) =~= s.subrange(i, s.len() as int));
        } else if k > i && s[k - 1] == '\r' {
            lemma_segments_flatten(s, k + 1);
            let segs = segments_from(s, i);
            assert(segs.drop_first() =~= segments_from(s, k + 1));
            assert(flatten_segs(segs) == s.subrange(i, k - 1) + "\r\n"@ + s.subrange(
                k + 1,
                s.len() as int,
            ));
            assert("\r\n"@.len() == 2 && "\r\n"@[0] == '\r' && "\r\n"@[1] == '\n');
            assert(flatten_segs(segs) =~= s.subrange(i, s.len() as int));
        } else {
            lemma_segments_flatten(s, k + 1);
            let segs = segments_from(s, i);
            assert(segs.drop_first() =~= segments_from(s, k + 1));
            assert(flatten_segs(segs) == s.subrange(i, k) + "\n"@ + s.subrange(
                k + 1,
                s.len() as int,
            ));
            assert("\n"@.len() == 1 && "\n"@[0] == '\n');
            assert(flatten_segs(segs) =~= s.subrange(i, s.len() as int));
        }
    }
}

/// The shape every segment table produced by `segments` has: bodies hold no
/// `\n`, only the final line can be unterminated and is then non-empty, and
/// a body closed by a bare `\n` does not end in `\r`.
pub open spec fn segs_wf(segs: Seq<(Seq<char>, LineEnd)>) -> bool {
    &&& forall|i: int, j: int|
        0 <= i < segs.len() && 0 <= j < segs[i].0.len() ==> #[trigger] segs[i].0[j] != '\n'
    &&& forall|i: int| 0 <= i < segs.len() - 1 ==> (#[trigger] segs[i]).1 != LineEnd::AtEof
    &&& (segs.len() > 0 && segs.last().1 == LineEnd::AtEof ==> segs.last().0.len() > 0)
    &&& forall|i: int|
        0 <= i < segs.len() && (#[trigger] segs[i]).1 == LineEnd::Lf ==> (segs[i].0.len() == 0
            || segs[i].0.last() != '\r')
}

/// Pin down `find_nl_from` when the first newline's position is known.
proof fn lemma_find_nl_val(s: Seq<char>, i: int, k: int)
    requires
        0 <= i <= k <= s.len(),
        forall|j: int| i <= j < k ==> s[j] != '\n',
        k == s.len() || s[k] == '\n',
    ensures
        find_nl_from(s, i) == k,
    decreases k - i,
{
    if i < k {
        lemma_find_nl_val(s, i + 1, k);
    }
}

/// Segmenting from `i` is segmenting the suffix that starts at `i`.
proof fn lemma_segments_translate(s: Seq<char>, i: int)
    requires
        0 <= i <= s.len(),
    ensures
        segments_from(s, i) == segments(s.subrange(i, s.len() as int)),
    decreases s.len() - i,
{
    let t = s.subrange(i, s.len() as int);
    if i >= s.len() {
        assert(segments_from(s, i) =~= segments(t));
    } else {
        let k = find_nl_from(s, i);
        lemma_find_nl_bounds(s, i);
        if k >= s.len() {
            lemma_find_nl_val(t, 0, t.len() as int);
            assert(t.subrange(0, t.len() as int) =~= t);
            assert(segments_from(s, i) =~= segments(t));
        } else {
            lemma_find_nl_val(t, 0, k - i);
            lemma_segments_translate(s, k + 1);
            lemma_segments_translate(t, k - i + 1);
            assert(t.subrange(k - i + 1, t.len() as int) =~= s.subrange(k + 1, s.len() as int));
            if k > i && s[k - 1] == '\r' {
                assert(t.subrange(0, k - i - 1) =~= s.subrange(i, k - 1));
                assert(segments_from(s, i) =~= segments(t));
            } else {
                assert(t.subrange(0, k - i) =~= s.subrange(i, k));
                assert(segments_from(s, i) =~= segments(t));
            }
        }
    }
}

/// What `segments` produces is well shaped.
proof fn lemma_segments_wf(s: Seq<char>, i: int)
    requires
        0 <= i <= s.len(),
    ensures
        segs_wf(segments_from(s, i)),
    decreases s.len() - i,
{
    if i < s.len() {
        let k = find_nl_from(s, i);
        lemma_find_nl_bounds(s, i);
        if k < s.len() {
            lemma_segments_wf(s, k + 1);
            let segs = segments_from(s, i);
            let rest = segments_from(s, k + 1);
            assert(forall|p: int| 1 <= p < segs.len() ==> segs[p] == rest[p - 1]);
            if segs.len() > 1 {
                assert(segs.last() == rest.last());
            }
        }
    }
}

/// Dropping the first segment keeps the table well shaped, provided another
/// segment remains.
proof fn lemma_segs_wf_drop_first(segs: Seq<(Seq<char>, LineEnd)>)
    requires
        segs_wf(segs),
        segs.len() > 0,
    ensures
        segs_wf(segs.drop_first()),
{
    let rest = segs.drop_first();
    assert(forall|p: int| 0 <= p < rest.len() ==> rest[p] == segs[p + 1]);
    if rest.len() > 0 {
        assert(rest.last() == segs.last());
    }
}

/// A well-shaped segment table is recovered intact from its flattening.
proof fn lemma_segments_of_flatten(segs: Seq<(Seq<char>, LineEnd)>)
    requires
        segs_wf(segs),
    ensures
        segments(flatten_segs(segs)) == segs,
    decreases segs.len(),
{
    reveal_strlit("\n");
    reveal_strlit("\r\n");
    let f = flatten_segs(segs);
    if segs.len() == 0 {
        assert(segments(f) =~= segs);
    } else {
        let g = segs[0];
        let rest = segs.drop_first();
        let tail = flatten_segs(rest);
        assert(f == g.0 + end_chars(g.1) + tail);
        lemma_segs_wf_drop_first(segs);
        lemma_segments_of_flatten(rest);
        match g.1 {
            LineEnd::AtEof => {
                assert(segs.len() == 1) by {
                    if segs.len() > 1 {
                        assert(segs[0].1 != LineEnd::AtEof);
                    }
                }
                assert(rest =~= Seq::<(Seq<char>, LineEnd)>::empty());
                assert(f =~= g.0);
                assert(g.0.len() > 0);
                lemma_find_nl_val(f, 0, f.len() as int);
                assert(f.subrange(0, f.len() as int) =~= g.0);
                assert(segments(f) =~= segs);
            },
            LineEnd::Lf => {
                let k = g.0.len() as int;
                assert(f.len() == k + 1 + tail.len());
                assert(f[k] == '\n');
                assert(forall|j: int| 0 <= j < k ==> f[j] == g.0[j] && f[j] != '\n');
                lemma_find_nl_val(f, 0, k);
                assert(k > 0 ==> f[k - 1] == g.0.last());
                assert(!(k > 0 && f[k - 1] == '\r'));
                lemma_segments_translate(f, k + 1);
                assert(f.subrange(k + 1, f.len() as int) =~= tail);
                assert(f.subrange(0, k) =~= g.0);
                assert(segments(f) =~= segs);
            },
            LineEnd::CrLf => {
                let k = g.0.len() + 1 as int;
                assert(f.len() == k + 1 + tail.len());
                assert(end_chars(g.1).len() == 2 && end_chars(g.1)[0] == '\r' && end_chars(g.1)[1]
                    == '\n');
                assert(f[k] == '\n');
                assert(f[k - 1] == '\r');
                assert(forall|j: int| 0 <= j < k - 1 ==> f[j] == g.0[j] && f[j] != '\n');
                assert(f[k - 1] != '\n');
                lemma_find_nl_val(f, 0, k);
                lemma_segments_translate(f, k + 1);
                assert(f.subrange(k + 1, f.len() as int) =~= tail);
                assert(f.subrange(0, k - 1) =~= g.0);
                assert(segments(f) =~= segs);
            },
        }
    }
}

/// Rewriting with an empty update map gives the content back unchanged,
/// byte for byte, terminators included.
pub proof fn lemma_rewrite_no_updates(c: Seq<char>)
    ensures
        spec_rewrite(c, Seq::empty()) == c,
{
    assert(rewrite_segs(segments(c), Seq::empty()) =~= segments(c));
    lemma_segments_flatten(c, 0);
    assert(c.subrange(0, c.len() as int) =~= c);
}

/// Pin down `find_close_from` when the first `]` position is known.
proof fn lemma_find_close_val(s: Seq<char>, i: int, k: int)
    requires
        0 <= i <= k <= s.len(),
        forall|j: int| i <= j < k ==> s[j] != ']',
        k == s.len() || s[k] == ']',
    ensures
        find_close_from(s, i) == k,
    decreases k - i,
{
    if i < k {
        lemma_find_close_val(s, i + 1, k);
    }
}

/// Pin down `find_marker_from` when the first marker position is known.
proof fn lemma_find_marker_val(s: Seq<char>, i: int, k: int)
    requires
        0 <= i <= k <= s.len(),
        forall|p: int| i <= p < k ==> !is_marker_start(s, p),
        k == s.len() || is_marker_start(s, k),
    ensures
        find_marker_from(s, i) == k,
    decreases k - i,
{
    if i < k {
        lemma_find_marker_val(s, i + 1, k);
    }
}

/// Everything a proof needs to know about the canonical markers.
proof fn lemma_canon_marker_facts(st: ActionStatus)
    ensures
        6 <= canon_marker(st).len(),
        is_marker_start(canon_marker(st), 0),
        forall|j: int| 0 <= j < canon_marker(st).len() - 1 ==> canon_marker(st)[j] != ']',
        canon_marker(st).last() == ']',
        forall|j: int|
            0 <= j < canon_marker(st).len() ==> canon_marker(st)[j] != '\n' && canon_marker(st)[j]
                != '\r',
{
    reveal_strlit("[USER]");
    reveal_strlit("[USER:wip]");
    reveal_strlit("[USER:done]");
    reveal_strlit("[USER:skip]");
}

/// How one line behaves under the rewriter, in every respect the segment
/// shape cares about.
proof fn lemma_rewrite_body_props(b: Seq<char>, st: ActionStatus)
    requires
        forall|j: int| 0 <= j < b.len() ==> b[j] != '\n',
    ensures
        forall|j: int|
            0 <= j < rewrite_body(b, st).len() ==> #[trigger] rewrite_body(b, st)[j] != '\n',
        b.len() == 0 ==> rewrite_body(b, st) == b,
        b.len() > 0 ==> rewrite_body(b, st).len() > 0,
        b.len() > 0 && b.last() != '\r' ==> rewrite_body(b, st).len() > 0 && rewrite_body(
            b,
            st,
        ).last() != '\r',
        rewrite_body(rewrite_body(b, st), st) == rewrite_body(b, st),
{
    lemma_canon_marker_facts(st);
    let j = find_marker_from(b, 0);
    lemma_find_marker_bounds(b, 0);
    if j >= b.len() {
    } else {
        let k = find_close_from(b, j);
        lemma_find_close_bounds(b, j);
        if k >= b.len() {
        } else {
            let canon = canon_marker(st);
            let clen = canon.len() as int;
            let d = rewrite_body(b, st);
            assert(d == b.subrange(0, j) + canon + b.subrange(k + 1, b.len() as int));
            assert(d.len() == j + clen + (b.len() - k - 1));
            // the rewritten line ends with the canonical `]` or with the
            // line's own unchanged last character
            if k + 1 < b.len() {
                assert(d.last() == b.last());
            } else {
                assert(d.last() == ']');
            }
            // the first marker of the rewritten line is the canonical one
            assert forall|p: int| 0 <= p < j implies !is_marker_start(d, p) by {
                if p + 5 <= j {
                    assert(!is_marker_start(b, p));
                    assert(forall|m: int| 0 <= m < 5 ==> #[trigger] d[p + m] == b[p + m]);
                } else {
                    assert(d[j] == '[');
                    let dd = j - p;
                    assert(1 <= dd < 5);
                    assert(lc(d[j]) == '[');
                }
            }
            assert(is_marker_start(d, j));
            lemma_find_marker_val(d, 0, j);
            assert(forall|q: int| j <= q < j + clen - 1 ==> d[q] == canon[q - j]);
            assert(forall|q: int| j <= q < j + clen - 1 ==> d[q] != ']');
            assert(d[j + clen - 1] == canon.last());
            lemma_find_close_val(d, j, j + clen - 1);
            assert(rewrite_body(d, st) == d.subrange(0, j) + canon + d.subrange(
                j + clen,
                d.len() as int,
            ));
            assert(d.subrange(0, j) =~= b.subrange(0, j));
            assert(d.subrange(j + clen, d.len() as int) =~= b.subrange(k + 1, b.len() as int));
            assert(rewrite_body(d, st) =~= d);
        }
    }
}

/// The rewriter keeps a well-shaped segment table well shaped.
proof fn lemma_rewrite_segs_wf(segs: Seq<(Seq<char>, LineEnd)>, us: Seq<(u32, ActionStatus)>)
    requires
        segs_wf(segs),
    ensures
        segs_wf(rewrite_segs(segs, us)),
{
    let rsegs = rewrite_segs(segs, us);
    assert forall|i: int| 0 <= i < rsegs.len() implies {
        &&& (forall|j: int| 0 <= j < rsegs[i].0.len() ==> #[trigger] rsegs[i].0[j] != '\n')
        &&& rsegs[i].1 == segs[i].1
        &&& (segs[i].0.len() > 0 ==> rsegs[i].0.len() > 0)
        &&& (segs[i].0.len() == 0 ==> rsegs[i].0 == segs[i].0)
        &&& (segs[i].0.len() > 0 && segs[i].0.last() != '\r' ==> rsegs[i].0.len() > 0
            && rsegs[i].0.last() != '\r')
    } by {
        match upd_for(us, i + 1) {
            Option::Some(st) => {
                lemma_rewrite_body_props(segs[i].0, st);
            },
            Option::None => {},
        }
    }
    if rsegs.len() > 0 {
        assert(rsegs.last() == rsegs[rsegs.len() - 1]);
        assert(segs.last() == segs[segs.len() - 1]);
    }
}

/// The rewriter works line by line: it never changes the number of lines nor
/// any terminator, a line that no update names is left untouched, and a
/// named line becomes its marker rewrite.
pub proof fn lemma_rewrite_line_by_line(c: Seq<char>, us: Seq<(u32, ActionStatus)>)
    ensures
        segments(spec_rewrite(c, us)) == rewrite_segs(segments(c), us),
        segments(spec_rewrite(c, us)).len() == segments(c).len(),
        forall|i: int|
            0 <= i < segments(c).len() ==> (#[trigger] segments(spec_rewrite(c, us))[i]).1
                == segments(c)[i].1,
        forall|i: int|
            0 <= i < segments(c).len() && upd_for(us, i + 1) is None ==> (#[trigger] segments(
                spec_rewrite(c, us),
            )[i]).0 == segments(c)[i].0,
        forall|i: int|
            (0 <= i < segments(c).len() && upd_for(us, i + 1) is Some) ==> (#[trigger] segments(
                spec_rewrite(c, us),
            )[i]).0 == rewrite_body(segments(c)[i].0, upd_for(us, i + 1).unwrap()),
{
    lemma_segments_wf(c, 0);
    lemma_rewrite_segs_wf(segments(c), us);
    lemma_segments_of_flatten(rewrite_segs(segments(c), us));
}

/// Lines in which no closed `[USER` token occurs at all are preserved by the
/// rewriter whatever the update map says; in particular every line that is
/// not a marker line and carries no such token is kept byte for byte.
pub proof fn lemma_rewrite_preserves_plain_lines(c: Seq<char>, us: Seq<(u32, ActionStatus)>, i: int)
    requires
        0 <= i < segments(c).len(),
        find_marker_from(segments(c)[i].0, 0) == segments(c)[i].0.len() || find_close_from(
            segments(c)[i].0,
            find_marker_from(segments(c)[i].0, 0),
        ) == segments(c)[i].0.len(),
    ensures
        segments(spec_rewrite(c, us))[i] == segments(c)[i],
{
    lemma_rewrite_line_by_line(c, us);
}

/// Rewriting twice with the same update map is the same as rewriting once.
pub proof fn lemma_rewrite_idempotent(c: Seq<char>, us: Seq<(u32, ActionStatus)>)
    ensures
        spec_rewrite(spec_rewrite(c, us), us) == spec_rewrite(c, us),
{
    let segs = segments(c);
    let rsegs = rewrite_segs(segs, us);
    lemma_segments_wf(c, 0);
    lemma_rewrite_segs_wf(segs, us);
    lemma_segments_of_flatten(rsegs);
    assert forall|i: int| 0 <= i < rsegs.len() implies rewrite_segs(rsegs, us)[i] == rsegs[i] by {
        match upd_for(us, i + 1) {
            Option::Some(st) => {
                assert(forall|j: int| 0 <= j < segs[i].0.len() ==> #[trigger] segs[i].0[j] != '\n');
                lemma_rewrite_body_props(segs[i].0, st);
            },
            Option::None => {},
        }
    }
    assert(rewrite_segs(rsegs, us) =~= rsegs);
}

/// Pin down `skip_sp` when the first non-space position is known.
proof fn lemma_skip_sp_val(s: Seq<char>, i: int, k: int)
    requires
        0 <= i <= k <= s.len(),
        forall|j: int| i <= j < k ==> is_sp(s[j]),
        k == s.len() || !is_sp(s[k]),
    ensures
        skip_sp(s, i) == k,
    decreases k - i,
{
    if i < k {
        lemma_skip_sp_val(s, i + 1, k);
    }
}

/// Scanning forward over spaces from `i` only looks at the suffix at `off`.
proof fn lemma_skip_sp_suffix(s: Seq<char>, off: int, i: int)
    requires
        0 <= off <= i <= s.len(),
    ensures
        skip_sp(s, i) == off + skip_sp(s.subrange(off, s.len() as int), i - off),
    decreases s.len() - i,
{
    let u = s.subrange(off, s.len() as int);
    if i < s.len() && is_sp(s[i]) {
        lemma_skip_sp_suffix(s, off, i + 1);
    }
}

/// Scanning backward over spaces stays inside the suffix at `off` as long as
/// the suffix holds a non-space character.
proof fn lemma_rskip_sp_suffix(s: Seq<char>, off: int, j: int)
    requires
        0 <= off <= j <= s.len(),
        exists|q: int| off <= q < j && !is_sp(s[q]),
    ensures
        rskip_sp(s, j) == off + rskip_sp(s.subrange(off, s.len() as int), j - off),
    decreases j,
{
    let u = s.subrange(off, s.len() as int);
    let q = choose|q: int| off <= q < j && !is_sp(s[q]);
    if is_sp(s[j - 1]) {
        assert(q < j - 1);
        lemma_rskip_sp_suffix(s, off, j - 1);
    } else {
        assert(!is_sp(u[j - off - 1]));
    }
}

/// The canonical marker of a status parses back to that status.
proof fn lemma_canon_token_status(st: ActionStatus)
    ensures
        token_status(canon_marker(st)) == st,
{
    reveal_strlit("[USER]");
    reveal_strlit("[USER:wip]");
    reveal_strlit("[USER:done]");
    reveal_strlit("[USER:skip]");
    reveal_strlit("[user]");
    reveal_strlit("[user:wip]");
    reveal_strlit("[user:inprogress]");
    reveal_strlit("[user:in_progress]");
    reveal_strlit("[user:done]");
    reveal_strlit("[user:completed]");
    reveal_strlit("[user:skip]");
    reveal_strlit("[user:skipped]");
    assert("[user]"@.len() == 6 && "[user:wip]"@.len() == 10 && "[user:inprogress]"@.len() == 17
        && "[user:in_progress]"@.len() == 18 && "[user:done]"@.len() == 11
        && "[user:completed]"@.len() == 16 && "[user:skip]"@.len() == 11
        && "[user:skipped]"@.len() == 14);
    assert("[user:done]"@[6] == 'd' && "[user:skip]"@[6] == 's');
    match st {
        ActionStatus::Pending => {
            assert(lc_seq(canon_marker(st)) =~= "[user]"@);
        },
        ActionStatus::InProgress => {
            assert(lc_seq(canon_marker(st)) =~= "[user:wip]"@);
        },
        ActionStatus::Completed => {
            assert(lc_seq(canon_marker(st)) =~= "[user:done]"@);
        },
        ActionStatus::Skipped => {
            assert(lc_seq(canon_marker(st)) =~= "[user:skip]"@);
        },
    }
}

/// Rewriting a marker line keeps it a marker line with the same title, and
/// its token now reads as the status that was written in.
#[verifier::rlimit(60)]
proof fn lemma_rewrite_marker_line(b: Seq<char>, st: ActionStatus)
    requires
        line_action(b) is Some,
    ensures
        line_action(rewrite_body(b, st)) == Some((line_action(b).unwrap().0, st)),
{
    lemma_canon_marker_facts(st);
    lemma_canon_token_status(st);
    let m = content_start(b);
    let j0 = skip_sp(b, 0);
    lemma_skip_sp_bounds(b, 0);
    if j0 + 1 < b.len() && b[j0] == '-' && is_sp(b[j0 + 1]) {
        lemma_skip_sp_bounds(b, j0 + 1);
    }
    assert(forall|p: int| 0 <= p < m ==> is_sp(b[p]) || b[p] == '-');
    let k = find_close_from(b, m);
    lemma_find_close_bounds(b, m);
    assert(k < b.len());
    // the first `[USER` of the line is the marker itself
    assert(forall|p: int| 0 <= p < m ==> !is_marker_start(b, p));
    lemma_find_marker_val(b, 0, m);
    let canon = canon_marker(st);
    let clen = canon.len() as int;
    let d = rewrite_body(b, st);
    assert(d == b.subrange(0, m) + canon + b.subrange(k + 1, b.len() as int));
    assert(d.len() == m + clen + (b.len() - k - 1));
    // the rewritten line starts the same way, so its content starts at `m`
    assert(forall|p: int| 0 <= p < m ==> d[p] == b[p]);
    assert(d[m] == canon[0] && d[m] == '[');
    assert(content_start(d) == m) by {
        lemma_skip_sp_val(d, 0, j0);
        if j0 + 1 < b.len() && b[j0] == '-' && is_sp(b[j0 + 1]) {
            assert(j0 < m);
            assert(j0 + 1 < d.len());
            lemma_skip_sp_val(d, j0 + 1, m);
        }
    }
    assert(is_marker_start(d, m));
    // the token of the rewritten line is exactly the canonical marker
    assert(forall|q: int| m <= q < m + clen - 1 ==> d[q] == canon[q - m]);
    assert(d[m + clen - 1] == canon.last());
    lemma_find_close_val(d, m, m + clen - 1);
    assert(d.subrange(m, m + clen) =~= canon);
    // the text after the token is untouched, so the title is unchanged
    let u = b.subrange(k + 1, b.len() as int);
    assert(d.subrange(m + clen, d.len() as int) =~= u);
    let a = skip_sp(b, k + 1);
    assert(a < b.len());
    lemma_skip_sp_bounds(b, k + 1);
    lemma_skip_sp_suffix(b, k + 1, k + 1);
    lemma_skip_sp_suffix(d, m + clen, m + clen);
    let ua = skip_sp(u, 0);
    assert(a == k + 1 + ua);
    assert(ua < u.len());
    assert(!is_sp(u[ua]));
    let ad = skip_sp(d, m + clen);
    assert(ad == m + clen + ua);
    assert(ad < d.len());
    lemma_rskip_sp_suffix(b, k + 1, b.len() as int);
    lemma_rskip_sp_suffix(d, m + clen, d.len() as int);
    let ue = rskip_sp(u, u.len() as int);
    assert(rskip_sp(b, b.len() as int) == k + 1 + ue);
    assert(rskip_sp(d, d.len() as int) == m + clen + ue);
    lemma_rskip_sp_above(u, u.len() as int, ua);
    lemma_rskip_sp_bounds(u, u.len() as int);
    assert(ua < ue <= u.len());
    assert(b.subrange(a, k + 1 + ue) =~= u.subrange(ua, ue));
    assert(d.subrange(ad, m + clen + ue) =~= u.subrange(ua, ue));
    assert(line_action(d) == Some((line_action(b).unwrap().0, st)));
}

/// Every entry of a parse names a line whose body indeed parses to it.
proof fn lemma_actions_entries(segs: Seq<(Seq<char>, LineEnd)>, i: int)
    requires
        0 <= i,
    ensures
        forall|p: int|
            0 <= p < actions_from(segs, i).len() ==> {
                let e = #[trigger] actions_from(segs, i)[p];
                &&& i < e.1 <= segs.len()
                &&& line_action(segs[e.1 - 1].0) == Some((e.0, e.2))
            },
    decreases segs.len() - i,
{
    if i < segs.len() {
        lemma_actions_entries(segs, i + 1);
        let cur = actions_from(segs, i);
        let rest = actions_from(segs, i + 1);
        match line_action(segs[i].0) {
            Option::None => {},
            Option::Some(ta) => {
                assert(cur == seq![(ta.0, i + 1, ta.1)] + rest);
                assert(forall|p: int| 1 <= p < cur.len() ==> cur[p] == rest[p - 1]);
                assert(cur[0].0 == ta.0 && cur[0].2 == ta.1);
                assert((ta.0, ta.1) == ta);
            },
        }
    }
}

/// Every marker line from `i` on shows up in the parse.
proof fn lemma_actions_complete(segs: Seq<(Seq<char>, LineEnd)>, i: int, l: int)
    requires
        0 <= i <= l - 1 < segs.len(),
        line_action(segs[l - 1].0) is Some,
    ensures
        exists|p: int|
            0 <= p < actions_from(segs, i).len() && (#[trigger] actions_from(segs, i)[p]).1 == l,
    decreases segs.len() - i,
{
    let cur = actions_from(segs, i);
    let rest = actions_from(segs, i + 1);
    if i == l - 1 {
        let ta = line_action(segs[i].0).unwrap();
        assert(cur == seq![(ta.0, i + 1, ta.1)] + rest);
        assert(cur[0].1 == l);
    } else {
        lemma_actions_complete(segs, i + 1, l);
        let p = choose|p: int| 0 <= p < rest.len() && (#[trigger] rest[p]).1 == l;
        match line_action(segs[i].0) {
            Option::None => {
                assert(cur[p].1 == l);
            },
            Option::Some(ta) => {
                assert(cur == seq![(ta.0, i + 1, ta.1)] + rest);
                assert(cur[p + 1] == rest[p]);
                assert(cur[p + 1].1 == l);
            },
        }
    }
}

/// The update map a parse induces: each action's line mapped to its status.
pub open spec fn updates_of(acts: Seq<(Seq<char>, int, ActionStatus)>) -> Seq<(u32, ActionStatus)> {
    acts.map_values(|e: (Seq<char>, int, ActionStatus)| (e.1 as u32, e.2))
}

/// With distinct, in-range line numbers, looking a line up in the induced
/// update map gives exactly that line's status.
proof fn lemma_upd_for_of(acts: Seq<(Seq<char>, int, ActionStatus)>, ln: int)
    requires
        forall|p: int, q: int| 0 <= p < q < acts.len() ==> acts[p].1 < acts[q].1,
        forall|p: int| 0 <= p < acts.len() ==> 1 <= (#[trigger] acts[p]).1 <= 0xFFFF_FFFF,
    ensures
        (forall|p: int| 0 <= p < acts.len() ==> (#[trigger] acts[p]).1 != ln) ==> upd_for(
            updates_of(acts),
            ln,
        ) is None,
        forall|p: int|
            0 <= p < acts.len() && (#[trigger] acts[p]).1 == ln ==> upd_for(updates_of(acts), ln)
                == Some(acts[p].2),
    decreases acts.len(),
{
    let us = updates_of(acts);
    if acts.len() > 0 {
        assert(us.last() == (acts.last().1 as u32, acts.last().2));
        assert(us.drop_last() =~= updates_of(acts.drop_last()));
        lemma_upd_for_of(acts.drop_last(), ln);
        assert(acts[acts.len() - 1] == acts.last());
        assert(1 <= acts.last().1 <= 0xFFFF_FFFF);
        assert(us.last().0 == acts.last().1);
        if acts.last().1 == ln {
            assert(forall|p: int|
                0 <= p < acts.len() - 1 ==> (#[trigger] acts[p]).1 < acts.last().1);
            assert(upd_for(us, ln) == Some(acts.last().2));
        } else {
            assert(us.last().0 != ln);
            assert(forall|p: int|
                0 <= p < acts.len() - 1 ==> #[trigger] acts.drop_last()[p] == acts[p]);
            assert(upd_for(us, ln) == upd_for(updates_of(acts.drop_last()), ln));
        }
        assert forall|p: int| 0 <= p < acts.len() && (#[trigger] acts[p]).1 == ln implies upd_for(
            us,
            ln,
        ) == Some(acts[p].2) by {
            if acts.last().1 == ln {
                if p < acts.len() - 1 {
                    assert(acts[p].1 < acts.last().1);
                }
                assert(p == acts.len() - 1);
            } else {
                assert(p < acts.len() - 1);
                assert(acts.drop_last()[p] == acts[p]);
                assert(upd_for(updates_of(acts.drop_last()), ln) == Some(acts.drop_last()[p].2));
            }
        }
    }
}

/// Segment tables whose lines parse alike parse alike as wholes.
proof fn lemma_actions_same(
    s1: Seq<(Seq<char>, LineEnd)>,
    s2: Seq<(Seq<char>, LineEnd)>,
    i: int,
)
    requires
        s1.len() == s2.len(),
        forall|j: int|
            0 <= j < s1.len() ==> line_action((#[trigger] s1[j]).0) == line_action(s2[j].0),
    ensures
        actions_from(s1, i) == actions_from(s2, i),
    decreases s1.len() - i,
{
    if 0 <= i < s1.len() {
        lemma_actions_same(s1, s2, i + 1);
    }
}

/// Parse, rewrite every parsed line with its own status, parse again: the
/// second parse is the first, title for title, line for line, status for
/// status.
pub proof fn lemma_parse_rewrite_roundtrip(c: Seq<char>)
    requires
        c.len() < 0x1_0000_0000,
    ensures
        plan_actions(spec_rewrite(c, updates_of(plan_actions(c)))) == plan_actions(c),
{
    let segs = segments(c);
    let acts = actions_from(segs, 0);
    let us = updates_of(acts);
    let rsegs = rewrite_segs(segs, us);
    lemma_rewrite_line_by_line(c, us);
    lemma_actions_increasing(segs, 0);
    lemma_actions_entries(segs, 0);
    lemma_segments_count(c, 0);
    assert forall|i: int| 0 <= i < segs.len() implies line_action((#[trigger] rsegs[i]).0)
        == line_action(segs[i].0) by {
        lemma_upd_for_of(acts, i + 1);
        match line_action(segs[i].0) {
            Option::None => {
                if upd_for(us, i + 1) is Some {
                    assert(!(forall|p: int|
                        0 <= p < acts.len() ==> (#[trigger] acts[p]).1 != i + 1));
                    let p = choose|p: int| 0 <= p < acts.len() && (#[trigger] acts[p]).1 == i + 1;
                    assert(line_action(segs[i].0) is Some);
                }
                assert(rsegs[i].0 == segs[i].0);
            },
            Option::Some(ta) => {
                lemma_actions_complete(segs, 0, i + 1);
                let p = choose|p: int|
                    0 <= p < acts.len() && (#[trigger] acts[p]).1 == i + 1;
                assert(line_action(segs[i].0) == Some((acts[p].0, acts[p].2)));
                assert(acts[p].2 == ta.1);
                assert(upd_for(us, i + 1) == Some(ta.1));
                lemma_rewrite_marker_line(segs[i].0, ta.1);
                assert((ta.0, ta.1) == ta);
            },
        }
    }
    lemma_actions_same(rsegs, segs, 0);
}

// ---------------------------------------------------------------------------
// Case insensitivity
// ---------------------------------------------------------------------------

/// Two character sequences that differ at most in ASCII letter case.
pub open spec fn ci_eq(a: Seq<char>, b: Seq<char>) -> bool {
    a.len() == b.len() && forall|i: int| 0 <= i < a.len() ==> lc(a[i]) == lc(b[i])
}

/// Characters the grammar treats as structure are fixed points of
/// lowercasing, so case-equal characters agree on them.
proof fn lemma_lc_structure(c: char, d: char)
    requires
        lc(c) == lc(d),
    ensures
        is_sp(c) == is_sp(d),
        (c == '-') == (d == '-'),
        (c == '[') == (d == '['),
        (c == ']') == (d == ']'),
        (c == '\n') == (d == '\n'),
        (c == '\r') == (d == '\r'),
{
}

proof fn lemma_ci_find_nl(a: Seq<char>, b: Seq<char>, i: int)
    requires
        ci_eq(a, b),
        0 <= i <= a.len(),
    ensures
        find_nl_from(a, i) == find_nl_from(b, i),
    decreases a.len() - i,
{
    if i < a.len() {
        lemma_lc_structure(a[i], b[i]);
        if a[i] != '\n' {
            lemma_ci_find_nl(a, b, i + 1);
        }
    }
}

/// Case-equal contents split into the same lines, with case-equal bodies and
/// identical terminators.
proof fn lemma_ci_segments(a: Seq<char>, b: Seq<char>, i: int)
    requires
        ci_eq(a, b),
        0 <= i <= a.len(),
    ensures
        segments_from(a, i).len() == segments_from(b, i).len(),
        forall|j: int|
            0 <= j < segments_from(a, i).len() ==> (#[trigger] segments_from(a, i)[j]).1
                == segments_from(b, i)[j].1 && ci_eq(
                segments_from(a, i)[j].0,
                segments_from(b, i)[j].0,
            ),
    decreases a.len() - i,
{
    if i < a.len() {
        let k = find_nl_from(a, i);
        lemma_find_nl_bounds(a, i);
        lemma_ci_find_nl(a, b, i);
        if k >= a.len() {
            assert(ci_eq(a.subrange(i, a.len() as int), b.subrange(i, b.len() as int)));
        } else {
            if k > i {
                lemma_lc_structure(a[k - 1], b[k - 1]);
            }
            lemma_ci_segments(a, b, k + 1);
            let sa = segments_from(a, i);
            let sb = segments_from(b, i);
            let ra = segments_from(a, k + 1);
            let rb = segments_from(b, k + 1);
            if k > i && a[k - 1] == '\r' {
                assert(ci_eq(a.subrange(i, k - 1), b.subrange(i, k - 1)));
            } else {
                assert(ci_eq(a.subrange(i, k), b.subrange(i, k)));
            }
            assert(forall|j: int| 1 <= j < sa.len() ==> sa[j] == ra[j - 1] && sb[j] == rb[j - 1]);
        }
    }
}

/// Parsing whole contents sees through letter case: case-equal contents give
/// the same number of actions, on the same lines, with the same statuses,
/// and with case-equal titles.
pub proof fn lemma_parse_content_case_insensitive(a: Seq<char>, b: Seq<char>)
    requires
        ci_eq(a, b),
    ensures
        plan_actions(a).len() == plan_actions(b).len(),
        forall|i: int|
            0 <= i < plan_actions(a).len() ==> (#[trigger] plan_actions(a)[i]).1
                == plan_actions(b)[i].1 && plan_actions(a)[i].2 == plan_actions(b)[i].2 && ci_eq(
                plan_actions(a)[i].0,
                plan_actions(b)[i].0,
            ),
{
    lemma_ci_segments(a, b, 0);
    lemma_ci_actions(segments(a), segments(b), 0);
}

/// Segment tables whose lines are case-equal parse alike, title case aside.
proof fn lemma_ci_actions(sa: Seq<(Seq<char>, LineEnd)>, sb: Seq<(Seq<char>, LineEnd)>, i: int)
    requires
        sa.len() == sb.len(),
        forall|j: int| 0 <= j < sa.len() ==> ci_eq((#[trigger] sa[j]).0, sb[j].0),
    ensures
        actions_from(sa, i).len() == actions_from(sb, i).len(),
        forall|p: int|
            0 <= p < actions_from(sa, i).len() ==> (#[trigger] actions_from(sa, i)[p]).1
                == actions_from(sb, i)[p].1 && actions_from(sa, i)[p].2 == actions_from(
                sb,
                i,
            )[p].2 && ci_eq(actions_from(sa, i)[p].0, actions_from(sb, i)[p].0),
    decreases sa.len() - i,
{
    if 0 <= i < sa.len() {
        lemma_parse_case_insensitive(sa[i].0, sb[i].0);
        lemma_ci_actions(sa, sb, i + 1);
        let ca = actions_from(sa, i);
        let cb = actions_from(sb, i);
        let ra = actions_from(sa, i + 1);
        let rb = actions_from(sb, i + 1);
        match line_action(sa[i].0) {
            Option::None => {},
            Option::Some(ta) => {
                let tb = line_action(sb[i].0).unwrap();
                assert(ca == seq![(ta.0, i + 1, ta.1)] + ra);
                assert(cb == seq![(tb.0, i + 1, tb.1)] + rb);
                assert(forall|p: int| 1 <= p < ca.len() ==> ca[p] == ra[p - 1] && cb[p] == rb[p
                    - 1]);
                assert(ca[0].1 == cb[0].1 && ca[0].2 == cb[0].2 && ci_eq(ca[0].0, cb[0].0));
            },
        }
    }
}

proof fn lemma_ci_skip_sp(a: Seq<char>, b: Seq<char>, i: int)
    requires
        ci_eq(a, b),
        0 <= i <= a.len(),
    ensures
        skip_sp(a, i) == skip_sp(b, i),
    decreases a.len() - i,
{
    if i < a.len() {
        lemma_lc_structure(a[i], b[i]);
        if is_sp(a[i]) {
            lemma_ci_skip_sp(a, b, i + 1);
        }
    }
}

proof fn lemma_ci_rskip_sp(a: Seq<char>, b: Seq<char>, j: int)
    requires
        ci_eq(a, b),
        0 <= j <= a.len(),
    ensures
        rskip_sp(a, j) == rskip_sp(b, j),
    decreases j,
{
    if j > 0 {
        lemma_lc_structure(a[j - 1], b[j - 1]);
        if is_sp(a[j - 1]) {
            lemma_ci_rskip_sp(a, b, j - 1);
        }
    }
}

proof fn lemma_ci_find_close(a: Seq<char>, b: Seq<char>, i: int)
    requires
        ci_eq(a, b),
        0 <= i <= a.len(),
    ensures
        find_close_from(a, i) == find_close_from(b, i),
    decreases a.len() - i,
{
    if i < a.len() {
        lemma_lc_structure(a[i], b[i]);
        if a[i] != ']' {
            lemma_ci_find_close(a, b, i + 1);
        }
    }
}

/// Parsing sees through letter case: on case-equal lines it recognizes the
/// same marker, reads the same status, and takes the title from the same
/// span, so the titles are case-equal in turn.  Markers in any casing are
/// thus treated identically.
pub proof fn lemma_parse_case_insensitive(a: Seq<char>, b: Seq<char>)
    requires
        ci_eq(a, b),
    ensures
        line_action(a) is Some <==> line_action(b) is Some,
        line_action(a) is Some ==> line_action(a).unwrap().1 == line_action(b).unwrap().1,
        line_action(a) is Some ==> ci_eq(line_action(a).unwrap().0, line_action(b).unwrap().0),
{
    lemma_ci_skip_sp(a, b, 0);
    let j = skip_sp(a, 0);
    lemma_skip_sp_bounds(a, 0);
    if j + 1 < a.len() {
        lemma_lc_structure(a[j], b[j]);
        lemma_lc_structure(a[j + 1], b[j + 1]);
        lemma_ci_skip_sp(a, b, j + 1);
    } else if j < a.len() {
        lemma_lc_structure(a[j], b[j]);
    }
    let m = content_start(a);
    assert(content_start(b) == m);
    if 0 <= m && m + 5 <= a.len() {
        lemma_lc_structure(a[m], b[m]);
    }
    assert(is_marker_start(a, m) == is_marker_start(b, m));
    if is_marker_start(a, m) {
        lemma_ci_find_close(a, b, m);
        let k = find_close_from(a, m);
        lemma_find_close_bounds(a, m);
        if k < a.len() {
            lemma_ci_skip_sp(a, b, k + 1);
            let t = skip_sp(a, k + 1);
            if t < a.len() {
                lemma_ci_rskip_sp(a, b, a.len() as int);
                let e = rskip_sp(a, a.len() as int);
                lemma_skip_sp_bounds(a, k + 1);
                lemma_rskip_sp_above(a, a.len() as int, t);
                lemma_rskip_sp_bounds(a, a.len() as int);
                assert(token_status(a.subrange(m, k + 1)) == token_status(b.subrange(m, k + 1)))
                    by {
                    assert(lc_seq(a.subrange(m, k + 1)) =~= lc_seq(b.subrange(m, k + 1)));
                }
                assert(ci_eq(a.subrange(t, e), b.subrange(t, e)));
            }
        }
    }
}

} // verus!
