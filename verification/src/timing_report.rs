//! Vivado timing-summary scanning for CI gating.
//!
//! A timing summary holds a `WNS(ns) ...` column-header row, usually a dashed
//! column rule under it, and then a data row whose first token is the worst
//! negative slack. Only WNS is located; the token is read as a number by the
//! caller.
use vstd::prelude::*;
use vstd::string::*;

verus! {

/// Unicode `White_Space`, the set that `str::trim` and `split_whitespace` use.
pub open spec fn is_whitespace(c: char) -> bool {
    let u = c as u32;
    ||| 0x09 <= u <= 0x0d
    ||| u == 0x20
    ||| u == 0x85
    ||| u == 0xa0
    ||| u == 0x1680
    ||| 0x2000 <= u <= 0x200a
    ||| u == 0x2028
    ||| u == 0x2029
    ||| u == 0x202f
    ||| u == 0x205f
    ||| u == 0x3000
}

/// Length of the first line of `text`: the position of the first `\n`, or the
/// whole length when there is none.
pub open spec fn line_length(text: Seq<char>) -> nat
    decreases text.len(),
{
    if text.len() == 0 || text[0] == '\n' {
        0
    } else {
        1 + line_length(text.drop_first())
    }
}

/// `text` without leading whitespace.
pub open spec fn trim_start(text: Seq<char>) -> Seq<char>
    decreases text.len(),
{
    if text.len() > 0 && is_whitespace(text[0]) {
        trim_start(text.drop_first())
    } else {
        text
    }
}

/// `text` without trailing whitespace.
pub open spec fn trim_end(text: Seq<char>) -> Seq<char>
    decreases text.len(),
{
    if text.len() > 0 && is_whitespace(text.last()) {
        trim_end(text.drop_last())
    } else {
        text
    }
}

/// `str::trim`.
pub open spec fn trim(text: Seq<char>) -> Seq<char> {
    trim_end(trim_start(text))
}

/// Length of the leading run of non-whitespace characters.
pub open spec fn token_length(text: Seq<char>) -> nat
    decreases text.len(),
{
    if text.len() == 0 || is_whitespace(text[0]) {
        0
    } else {
        1 + token_length(text.drop_first())
    }
}

/// First whitespace-separated token of a trimmed line.
pub open spec fn first_token(line: Seq<char>) -> Seq<char> {
    line.take(token_length(line) as int)
}

/// `WNS(ns)`, the header of the slack column.
pub open spec fn wns_header() -> Seq<char> {
    seq!['W', 'N', 'S', '(', 'n', 's', ')']
}

/// A trimmed line that starts with the WNS column header.
pub open spec fn is_wns_header(line: Seq<char>) -> bool {
    line.len() >= 7 && line.take(7) == wns_header()
}

/// A token made only of dashes (a column rule).
pub open spec fn is_rule(token: Seq<char>) -> bool {
    forall|i: int| 0 <= i < token.len() ==> token[i] == '-'
}

/// Scan the lines of `text`; `after_header` says whether a WNS header line has
/// been seen. Header lines are skipped; after a header, the first line that is
/// neither blank nor a column rule yields its first token.
pub open spec fn scan_wns(text: Seq<char>, after_header: bool) -> Option<Seq<char>>
    decreases text.len(),
{
    let e = line_length(text);
    let line = trim(text.take(e as int));
    if is_wns_header(line) {
        if e < text.len() {
            scan_wns(text.skip(e + 1int), true)
        } else {
            None
        }
    } else if after_header && line.len() > 0 && !is_rule(first_token(line)) {
        Some(first_token(line))
    } else if e < text.len() {
        scan_wns(text.skip(e + 1int), after_header)
    } else {
        None
    }
}

/// The WNS token of a report, if the report has one.
pub open spec fn report_wns_token(text: Seq<char>) -> Option<Seq<char>> {
    scan_wns(text, false)
}

fn collect_chars(text: &str) -> (chars: Vec<char>)
    ensures
        chars@ == text@,
{
    let mut chars: Vec<char> = Vec::new();
    for c in iter: text.chars()
        invariant
            chars@ == iter.seq().take(iter.index()),
    {
        chars.push(c);
    }
    chars
}

fn is_whitespace_char(c: char) -> (ws: bool)
    ensures
        ws == is_whitespace(c),
{
    let u = c as u32;
    (0x09 <= u && u <= 0x0d) || u == 0x20 || u == 0x85 || u == 0xa0 || u == 0x1680 || (0x2000 <= u
        && u <= 0x200a) || u == 0x2028 || u == 0x2029 || u == 0x202f || u == 0x205f || u == 0x3000
}

proof fn lemma_line_length(text: Seq<char>, e: int)
    requires
        0 <= e <= text.len(),
        forall|k: int| 0 <= k < e ==> text[k] != '\n',
        e == text.len() || text[e] == '\n',
    ensures
        line_length(text) == e,
    decreases e,
{
    if e > 0 {
        lemma_line_length(text.drop_first(), e - 1);
    }
}

proof fn lemma_trim_start(text: Seq<char>, a: int)
    requires
        0 <= a <= text.len(),
        forall|k: int| 0 <= k < a ==> is_whitespace(#[trigger] text[k]),
        a == text.len() || !is_whitespace(text[a]),
    ensures
        trim_start(text) == text.skip(a),
    decreases a,
{
    if a > 0 {
        lemma_trim_start(text.drop_first(), a - 1);
        assert(text.drop_first().skip(a - 1) =~= text.skip(a));
    } else {
        assert(text.skip(0) =~= text);
    }
}

proof fn lemma_trim_end(text: Seq<char>, b: int)
    requires
        0 <= b <= text.len(),
        forall|k: int| b <= k < text.len() ==> is_whitespace(#[trigger] text[k]),
        b == 0 || !is_whitespace(text[b - 1]),
    ensures
        trim_end(text) == text.take(b),
    decreases text.len() - b,
{
    if b < text.len() {
        lemma_trim_end(text.drop_last(), b);
        assert(text.drop_last().take(b) =~= text.take(b));
    } else {
        assert(text.take(b) =~= text);
    }
}

proof fn lemma_token_length(text: Seq<char>, t: int)
    requires
        0 <= t <= text.len(),
        forall|k: int| 0 <= k < t ==> !is_whitespace(#[trigger] text[k]),
        t == text.len() || is_whitespace(text[t]),
    ensures
        token_length(text) == t,
    decreases t,
{
    if t > 0 {
        lemma_token_length(text.drop_first(), t - 1);
    }
}

/// The trimmed line `chars[a..b]` starts with `WNS(ns)`.
fn starts_with_wns_header(chars: &Vec<char>, a: usize, b: usize) -> (header: bool)
    requires
        a <= b <= chars@.len(),
    ensures
        header == is_wns_header(chars@.subrange(a as int, b as int)),
{
    if b - a < 7 {
        return false;
    }
    let header = chars[a] == 'W' && chars[a + 1] == 'N' && chars[a + 2] == 'S' && chars[a + 3]
        == '(' && chars[a + 4] == 'n' && chars[a + 5] == 's' && chars[a + 6] == ')';
    let ghost line = chars@.subrange(a as int, b as int);
    if header {
        assert(line.take(7) =~= wns_header());
    } else {
        assert(line.take(7) != wns_header()) by {
            if line.take(7) == wns_header() {
                assert(line.take(7)[0] == 'W' && line.take(7)[1] == 'N' && line.take(7)[2] == 'S');
                assert(line.take(7)[3] == '(' && line.take(7)[4] == 'n' && line.take(7)[5] == 's');
                assert(line.take(7)[6] == ')');
            }
        }
    }
    header
}

/// `chars[a..t]` consists of dashes only.
fn is_dash_run(chars: &Vec<char>, a: usize, t: usize) -> (rule: bool)
    requires
        a <= t <= chars@.len(),
    ensures
        rule == is_rule(chars@.subrange(a as int, t as int)),
{
    let mut k = a;
    while k < t
        invariant
            a <= k <= t <= chars@.len(),
            forall|m: int| a <= m < k ==> chars@[m] == '-',
        decreases t - k,
    {
        if chars[k] != '-' {
            assert(chars@.subrange(a as int, t as int)[k - a] != '-');
            return false;
        }
        k = k + 1;
    }
    assert forall|i: int| 0 <= i < t - a implies chars@.subrange(a as int, t as int)[i] == '-' by {
        assert(chars@.subrange(a as int, t as int)[i] == chars@[a + i]);
    }
    true
}

/// Locate the WNS token of a Vivado timing summary.
///
/// Looks for the first line whose trimmed text starts with `WNS(ns)`; after
/// it, blank lines, further header lines and dashed column-rule rows are
/// skipped, and the first token of the next line is returned. `None` when
/// there is no header or no such line.
pub fn report_wns_field(report_text: &str) -> (token: Option<&str>)
    ensures
        report_wns_token(report_text@) == match token {
            Some(t) => Some(t@),
            None => None,
        },
{
    let chars = collect_chars(report_text);
    let n = chars.len();
    let mut pos: usize = 0;
    let mut after_header = false;
    assert(chars@.skip(0) =~= chars@);
    loop
        invariant
            pos <= n == chars@.len(),
            chars@ == report_text@,
            report_wns_token(report_text@) == scan_wns(chars@.skip(pos as int), after_header),
        decreases n - pos,
    {
        let ghost rest = chars@.skip(pos as int);
        // End of the current line.
        let mut e = pos;
        while e < n && chars[e] != '\n'
            invariant
                pos <= e <= n == chars@.len(),
                forall|k: int| pos <= k < e ==> chars@[k] != '\n',
            decreases n - e,
        {
            e = e + 1;
        }
        proof {
            lemma_line_length(rest, e - pos);
            assert(rest.take(e - pos) =~= chars@.subrange(pos as int, e as int));
        }
        // Trim leading whitespace.
        let mut a = pos;
        while a < e && is_whitespace_char(chars[a])
            invariant
                pos <= a <= e <= n == chars@.len(),
                forall|k: int| pos <= k < a ==> is_whitespace(#[trigger] chars@[k]),
            decreases e - a,
        {
            a = a + 1;
        }
        // Trim trailing whitespace.
        let mut b = e;
        while b > a && is_whitespace_char(chars[b - 1])
            invariant
                pos <= a <= b <= e <= n == chars@.len(),
                forall|k: int| b <= k < e ==> is_whitespace(#[trigger] chars@[k]),
            decreases b - a,
        {
            b = b - 1;
        }
        proof {
            let raw = chars@.subrange(pos as int, e as int);
            lemma_trim_start(raw, a - pos);
            assert(raw.skip(a - pos) =~= chars@.subrange(a as int, e as int));
            let started = chars@.subrange(a as int, e as int);
            assert forall|k: int| b - a <= k < started.len() implies is_whitespace(
                #[trigger] started[k],
            ) by {
                assert(started[k] == chars@[a + k]);
            }
            lemma_trim_end(started, b - a);
            assert(started.take(b - a) =~= chars@.subrange(a as int, b as int));
            assert(trim(raw) == chars@.subrange(a as int, b as int));
        }
        let ghost line = chars@.subrange(a as int, b as int);
        if starts_with_wns_header(&chars, a, b) {
            after_header = true;
        } else if after_header && b > a {
            let mut t = a;
            while t < b && !is_whitespace_char(chars[t])
                invariant
                    a <= t <= b <= n == chars@.len(),
                    forall|k: int| a <= k < t ==> !is_whitespace(#[trigger] chars@[k]),
                decreases b - t,
            {
                t = t + 1;
            }
            proof {
                assert forall|k: int| 0 <= k < t - a implies !is_whitespace(#[trigger] line[k]) by {
                    assert(line[k] == chars@[a + k]);
                }
                lemma_token_length(line, t - a);
                assert(first_token(line) =~= chars@.subrange(a as int, t as int));
            }
            if !is_dash_run(&chars, a, t) {
                let token = report_text.substring_char(a, t);
                return Some(token);
            }
        }
        if e >= n {
            return None;
        }
        proof {
            assert(rest.skip(e - pos + 1) =~= chars@.skip(e + 1));
        }
        pos = e + 1;
    }
}

// ---------------------------------------------------------------------------
// Laws
// ---------------------------------------------------------------------------
proof fn lemma_trim_start_shape(text: Seq<char>)
    ensures
        trim_start(text).len() > 0 ==> !is_whitespace(trim_start(text)[0]),
    decreases text.len(),
{
    if text.len() > 0 && is_whitespace(text[0]) {
        lemma_trim_start_shape(text.drop_first());
    }
}

proof fn lemma_trim_end_is_prefix(text: Seq<char>)
    ensures
        trim_end(text).len() <= text.len(),
        trim_end(text) == text.take(trim_end(text).len() as int),
    decreases text.len(),
{
    if text.len() > 0 && is_whitespace(text.last()) {
        lemma_trim_end_is_prefix(text.drop_last());
        assert(text.drop_last().take(trim_end(text).len() as int) =~= text.take(
            trim_end(text).len() as int,
        ));
    } else {
        assert(text.take(text.len() as int) =~= text);
    }
}

proof fn lemma_token_chars(text: Seq<char>)
    ensures
        token_length(text) <= text.len(),
        forall|i: int| 0 <= i < token_length(text) ==> !is_whitespace(#[trigger] text[i]),
        text.len() > 0 && !is_whitespace(text[0]) ==> token_length(text) > 0,
    decreases text.len(),
{
    if text.len() > 0 && !is_whitespace(text[0]) {
        lemma_token_chars(text.drop_first());
        assert forall|i: int| 0 <= i < token_length(text) implies !is_whitespace(#[trigger] text[i]) by {
            if i > 0 {
                assert(text[i] == text.drop_first()[i - 1]);
            }
        }
    }
}

/// A WNS token, when a report has one, is a non-empty run of non-whitespace
/// characters that is not a dashed column rule.
pub proof fn law_wns_token_shape(text: Seq<char>, after_header: bool)
    ensures
        scan_wns(text, after_header) matches Some(token) ==> {
            &&& token.len() > 0
            &&& forall|i: int| 0 <= i < token.len() ==> !is_whitespace(#[trigger] token[i])
            &&& !is_rule(token)
        },
    decreases text.len(),
{
    let e = line_length(text);
    let line = trim(text.take(e as int));
    if is_wns_header(line) {
        if e < text.len() {
            law_wns_token_shape(text.skip(e + 1int), true);
        }
    } else if after_header && line.len() > 0 && !is_rule(first_token(line)) {
        let started = trim_start(text.take(e as int));
        lemma_trim_start_shape(text.take(e as int));
        lemma_trim_end_is_prefix(started);
        assert(line[0] == started[0]);
        lemma_token_chars(line);
        let token = first_token(line);
        assert forall|i: int| 0 <= i < token.len() implies !is_whitespace(#[trigger] token[i]) by {
            assert(token[i] == line[i]);
        }
    } else if e < text.len() {
        law_wns_token_shape(text.skip(e + 1int), after_header);
    }
}

/// No line of `text` is, once trimmed, a WNS header line.
pub open spec fn has_no_wns_header_line(text: Seq<char>) -> bool
    decreases text.len(),
{
    let e = line_length(text);
    if is_wns_header(trim(text.take(e as int))) {
        false
    } else if e < text.len() {
        has_no_wns_header_line(text.skip(e + 1int))
    } else {
        true
    }
}

proof fn lemma_line_length_stops(text: Seq<char>)
    ensures
        line_length(text) <= text.len(),
        line_length(text) < text.len() ==> text[line_length(text) as int] == '\n',
        forall|k: int| 0 <= k < line_length(text) ==> text[k] != '\n',
    decreases text.len(),
{
    if text.len() > 0 && text[0] != '\n' {
        lemma_line_length_stops(text.drop_first());
        assert forall|k: int| 0 <= k < line_length(text) implies text[k] != '\n' by {
            if k > 0 {
                assert(text[k] == text.drop_first()[k - 1]);
            }
        }
    }
}

/// In text that ends with a newline, the first line ends before the end.
proof fn lemma_first_line_is_terminated(text: Seq<char>)
    requires
        text.len() > 0,
        text.last() == '\n',
    ensures
        line_length(text) < text.len(),
{
    lemma_line_length_stops(text);
    if line_length(text) == text.len() {
        assert(text[text.len() - 1] != '\n');
    }
}

/// Appending text after a terminated first line leaves that line alone.
proof fn lemma_first_line_of_concat(a: Seq<char>, b: Seq<char>)
    requires
        a.len() > 0,
        a.last() == '\n',
    ensures
        line_length(a) < a.len(),
        line_length(a + b) == line_length(a),
        (a + b).take(line_length(a) as int) == a.take(line_length(a) as int),
        (a + b).skip(line_length(a) + 1int) == a.skip(line_length(a) + 1int) + b,
{
    lemma_first_line_is_terminated(a);
    lemma_line_length_stops(a);
    let e = line_length(a) as int;
    lemma_line_length(a + b, e);
    assert((a + b).take(e) =~= a.take(e));
    assert((a + b).skip(e + 1) =~= a.skip(e + 1) + b);
}

/// Once a newline-terminated report yields its WNS token, whatever follows
/// it does not change the result.
pub proof fn law_wns_scan_ignores_text_after(report: Seq<char>, more: Seq<char>, after_header: bool)
    requires
        report.len() > 0,
        report.last() == '\n',
        scan_wns(report, after_header) is Some,
    ensures
        scan_wns(report + more, after_header) == scan_wns(report, after_header),
    decreases report.len(),
{
    lemma_first_line_of_concat(report, more);
    let e = line_length(report);
    let rest = report.skip(e + 1int);
    if rest.len() > 0 {
        assert(rest.last() == report.last());
        let line = trim(report.take(e as int));
        if is_wns_header(line) {
            law_wns_scan_ignores_text_after(rest, more, true);
        } else if !(after_header && line.len() > 0 && !is_rule(first_token(line))) {
            law_wns_scan_ignores_text_after(rest, more, after_header);
        }
    } else {
        let empty = Seq::<char>::empty();
        assert(rest =~= empty);
        assert(trim_start(empty.take(0)) =~= empty);
        assert(trim_end(empty) =~= empty);
        assert(scan_wns(empty, true) is None);
        assert(scan_wns(empty, after_header) is None);
    }
}

/// Text before the WNS header does not change the result, as long as it
/// ends at a line break and none of its lines is a WNS header line.
pub proof fn law_wns_scan_ignores_text_before_header(preamble: Seq<char>, report: Seq<char>)
    requires
        preamble.len() == 0 || preamble.last() == '\n',
        has_no_wns_header_line(preamble),
    ensures
        scan_wns(preamble + report, false) == scan_wns(report, false),
    decreases preamble.len(),
{
    if preamble.len() == 0 {
        assert(preamble + report =~= report);
    } else {
        lemma_first_line_of_concat(preamble, report);
        let e = line_length(preamble);
        let rest = preamble.skip(e + 1int);
        if rest.len() > 0 {
            assert(rest.last() == preamble.last());
        }
        law_wns_scan_ignores_text_before_header(rest, report);
    }
}

/// `token` stands in `text` at position `i` as a whole field: the
/// characters match and the next character, if any, is whitespace.
pub open spec fn is_field_at(text: Seq<char>, i: int, token: Seq<char>) -> bool {
    &&& 0 <= i
    &&& i + token.len() <= text.len()
    &&& text.subrange(i, i + token.len()) == token
    &&& (i + token.len() == text.len() || is_whitespace(text[i + token.len()]))
}

/// Position `i` is the first non-blank position of its line: the line
/// starts at some `j <= i` (the text start or just after a `\n`) and only
/// non-newline whitespace lies between `j` and `i`.
pub open spec fn opens_its_line(text: Seq<char>, i: int) -> bool {
    exists|j: int| #[trigger] blank_from_line_start(text, j, i)
}

/// A line starts at `j` (the text start or just after a `\n`) and only
/// non-newline whitespace lies in `j..i`.
pub open spec fn blank_from_line_start(text: Seq<char>, j: int, i: int) -> bool {
    &&& 0 <= j <= i
    &&& (j == 0 || text[j - 1] == '\n')
    &&& forall|k: int| j <= k < i ==> #[trigger] is_whitespace(text[k]) && text[k] != '\n'
}

proof fn lemma_trim_start_drops_whitespace(text: Seq<char>)
    ensures
        trim_start(text).len() <= text.len(),
        trim_start(text) == text.skip(text.len() - trim_start(text).len()),
        forall|k: int|
            0 <= k < text.len() - trim_start(text).len() ==> #[trigger] is_whitespace(text[k]),
    decreases text.len(),
{
    if text.len() > 0 && is_whitespace(text[0]) {
        let rest = text.drop_first();
        lemma_trim_start_drops_whitespace(rest);
        assert(rest.skip(rest.len() - trim_start(rest).len()) =~= text.skip(
            text.len() - trim_start(text).len(),
        ));
        assert forall|k: int| 0 <= k < text.len() - trim_start(text).len() implies #[trigger] is_whitespace(
            text[k],
        ) by {
            if k > 0 {
                assert(text[k] == rest[k - 1]);
            }
        }
    } else {
        assert(text.skip(0) =~= text);
    }
}

proof fn lemma_trim_end_drops_whitespace(text: Seq<char>)
    ensures
        trim_end(text).len() <= text.len(),
        trim_end(text) == text.take(trim_end(text).len() as int),
        forall|k: int| trim_end(text).len() <= k < text.len() ==> #[trigger] is_whitespace(text[k]),
    decreases text.len(),
{
    lemma_trim_end_is_prefix(text);
    if text.len() > 0 && is_whitespace(text.last()) {
        let rest = text.drop_last();
        lemma_trim_end_drops_whitespace(rest);
        assert forall|k: int| trim_end(text).len() <= k < text.len() implies #[trigger] is_whitespace(
            text[k],
        ) by {
            if k < text.len() - 1 {
                assert(text[k] == rest[k]);
            }
        }
    }
}

proof fn lemma_token_ends_at_whitespace(text: Seq<char>)
    ensures
        token_length(text) < text.len() ==> is_whitespace(text[token_length(text) as int]),
    decreases text.len(),
{
    if text.len() > 0 && !is_whitespace(text[0]) {
        lemma_token_ends_at_whitespace(text.drop_first());
    }
}

/// Where the WNS token of `text` stands: position `i` of a whole field that
/// opens its line.
proof fn lemma_wns_token_position(text: Seq<char>, after_header: bool) -> (i: int)
    requires
        scan_wns(text, after_header) is Some,
    ensures
        is_field_at(text, i, scan_wns(text, after_header)->0),
        opens_its_line(text, i),
    decreases text.len(),
{
    lemma_line_length_stops(text);
    let e = line_length(text) as int;
    let raw = text.take(e);
    let line = trim(raw);
    if !is_wns_header(line) && after_header && line.len() > 0 && !is_rule(first_token(line)) {
        let started = trim_start(raw);
        lemma_trim_start_drops_whitespace(raw);
        lemma_trim_end_drops_whitespace(started);
        lemma_token_chars(line);
        lemma_token_ends_at_whitespace(line);
        let a = raw.len() - started.len();
        let token = first_token(line);
        let tl = token.len() as int;
        assert(tl == token_length(line));
        assert forall|m: int| 0 <= m < tl implies #[trigger] text.subrange(a, a + tl)[m] == token[m] by {
            assert(token[m] == line[m]);
            assert(line[m] == started[m]);
            assert(started[m] == raw[a + m]);
        }
        assert(text.subrange(a, a + tl) =~= token);
        if a + tl < text.len() {
            if tl < line.len() {
                assert(text[a + tl] == raw[a + tl]);
                assert(line[tl] == started[tl]);
            } else if a + tl < e {
                assert(text[a + tl] == raw[a + tl]);
                assert(started[tl] == raw[a + tl]);
                assert(is_whitespace(started[tl]));
            } else {
                assert(text[e] == '\n');
            }
        }
        assert forall|k: int| 0 <= k < a implies #[trigger] is_whitespace(text[k]) && text[k] != '\n' by {
            assert(text[k] == raw[k]);
        }
        assert(blank_from_line_start(text, 0, a));
        a
    } else {
        let rest = text.skip(e + 1);
        let found = if is_wns_header(line) {
            true
        } else {
            after_header
        };
        assert(scan_wns(text, after_header) == scan_wns(rest, found));
        let r = lemma_wns_token_position(rest, found);
        let token = scan_wns(rest, found)->0;
        let i = r + e + 1;
        assert(text.subrange(i, i + token.len()) =~= rest.subrange(r, r + token.len()));
        if i + token.len() < text.len() {
            assert(text[i + token.len()] == rest[r + token.len()]);
        }
        let j = choose|j: int| #[trigger] blank_from_line_start(rest, j, r);
        assert(blank_from_line_start(rest, j, r));
        assert(e < text.len());
        assert(text[j + e + 1 - 1] == '\n') by {
            if j == 0 {
                assert(text[e] == '\n');
            } else {
                assert(text[j + e] == rest[j - 1]);
            }
        }
        assert forall|k: int| j + e + 1 <= k < i implies #[trigger] is_whitespace(text[k]) && text[k]
            != '\n' by {
            assert(text[k] == rest[k - e - 1]);
            assert(j <= k - e - 1 < r);
            assert(is_whitespace(rest[k - e - 1]) && rest[k - e - 1] != '\n');
        }
        assert(0 <= j + e + 1 <= i);
        assert(text[(j + e + 1) - 1] == '\n');
        assert(blank_from_line_start(text, j + e + 1, i));
        i
    }
}

/// The WNS token is taken whole: it is a complete whitespace-separated field
/// of the report, the first non-blank field of its line (it starts where the
/// trimmed line starts and ends at the next whitespace or the end of text).
pub proof fn law_wns_token_is_first_field_of_its_line(text: Seq<char>)
    ensures
        report_wns_token(text) matches Some(token) ==> exists|i: int|
            is_field_at(text, i, token) && opens_its_line(text, i),
{
    if report_wns_token(text) is Some {
        let i = lemma_wns_token_position(text, false);
        assert(is_field_at(text, i, report_wns_token(text)->0) && opens_its_line(text, i));
    }
}

} // verus!
