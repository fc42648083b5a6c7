//! Filtering of device log text before it is shown.
use vstd::prelude::*;

verus! {

/// Lines longer than this many non-ASCII characters are taken for a screen
/// dump that slipped into the log, and call for a fresh screen request.
pub const SCREEN_HINT_THRESHOLD: usize = 30;

/// Lines kept for display: those written by the firmware's sources.
pub open spec fn source_line_pattern() -> Seq<char> {
    seq!['^', 's', 'r', 'c', '/', '.', '*']
}

/// One non-ASCII character.
pub open spec fn non_ascii_pattern() -> Seq<char> {
    seq!['[', '^', '\x00', '-', '\x7F', ']']
}

/// Number of non-overlapping matches of `pattern` in `text`; 0 when the
/// pattern does not compile.
pub uninterp spec fn pattern_match_count(pattern: Seq<char>, text: Seq<char>) -> nat;

/// `text` begins with `src/`.
pub open spec fn starts_with_src(text: Seq<char>) -> bool {
    text.len() >= 4 && text.subrange(0, 4) == seq!['s', 'r', 'c', '/']
}

/// Number of characters of `text` above U+007F.
pub open spec fn non_ascii_count(text: Seq<char>) -> nat
    decreases text.len(),
{
    if text.len() == 0 {
        0
    } else {
        non_ascii_count(text.drop_last()) + if text.last() as u32 > 0x7F {
            1nat
        } else {
            0nat
        }
    }
}

/// Relies on `regex::Regex::new` and `Regex::find_iter`, counting the matches.
/// `^src/.*` is anchored at the start of the text only and matches once
/// exactly when the text begins with `src/`; `[^\x00-\x7F]` matches each
/// character above U+007F once.
#[verifier::external_body]
fn regex_match_count(pattern: &str, text: &str) -> (r: usize)
    ensures
        r == pattern_match_count(pattern@, text@),
        pattern@ == source_line_pattern() ==> r == if starts_with_src(text@) {
            1nat
        } else {
            0nat
        },
        pattern@ == non_ascii_pattern() ==> r == non_ascii_count(text@),
{
    match regex::Regex::new(pattern) {
        Ok(re) => re.find_iter(text).count(),
        Err(_) => 0,
    }
}

/// Relies on `str::chars`, collected in order.
#[verifier::external_body]
fn chars_of(s: &str) -> (r: Vec<char>)
    ensures
        r@ == s@,
{
    s.chars().collect()
}

/// Relies on `String: FromIterator<char>`.
#[verifier::external_body]
fn string_of(c: &[char]) -> (r: String)
    ensures
        r@ == c@,
{
    c.iter().collect()
}

/// A line without the `\r` of a `\r\n` ending.
pub open spec fn strip_cr(line: Seq<char>) -> Seq<char> {
    if line.len() > 0 && line.last() == '\r' {
        line.drop_last()
    } else {
        line
    }
}

/// The lines that `\n` ends in `s`, and the unended rest.
pub open spec fn scan_lines(s: Seq<char>) -> (Seq<Seq<char>>, Seq<char>)
    decreases s.len(),
{
    if s.len() == 0 {
        (seq![], seq![])
    } else {
        let (ls, cur) = scan_lines(s.drop_last());
        if s.last() == '\n' {
            (ls.push(strip_cr(cur)), seq![])
        } else {
            (ls, cur.push(s.last()))
        }
    }
}

/// The lines of `s`, split at `\n` or `\r\n`; a last line needs no ending.
pub open spec fn lines_of(s: Seq<char>) -> Seq<Seq<char>> {
    let (ls, cur) = scan_lines(s);
    if cur.len() == 0 {
        ls
    } else {
        ls.push(cur)
    }
}

/// Whether a line is kept for display: it begins with `src/`, so the
/// source-line pattern matches it.
pub open spec fn is_kept(line: Seq<char>) -> bool {
    starts_with_src(line)
}

/// Whether a dropped line looks like a screen dump.
pub open spec fn is_screen_hint(line: Seq<char>) -> bool {
    !is_kept(line) && line.len() > 0 && non_ascii_count(line) > SCREEN_HINT_THRESHOLD
}

/// The kept lines, each followed by `\n`.
pub open spec fn kept_text(lines: Seq<Seq<char>>) -> Seq<char>
    decreases lines.len(),
{
    if lines.len() == 0 {
        seq![]
    } else {
        let prev = kept_text(lines.drop_last());
        if is_kept(lines.last()) {
            prev + lines.last().push('\n')
        } else {
            prev
        }
    }
}

/// How many lines look like a screen dump.
pub open spec fn screen_hints(lines: Seq<Seq<char>>) -> nat
    decreases lines.len(),
{
    if lines.len() == 0 {
        0
    } else {
        screen_hints(lines.drop_last()) + if is_screen_hint(lines.last()) {
            1nat
        } else {
            0nat
        }
    }
}

/// Adds one line to a filtering in progress.
fn take_line(line: &[char], kept: &mut Vec<char>, hints: &mut usize, Ghost(
    lines,
): Ghost<Seq<Seq<char>>>)
    requires
        old(kept)@ == kept_text(lines),
        *old(hints) == screen_hints(lines),
        *old(hints) < usize::MAX,
    ensures
        final(kept)@ == kept_text(lines.push(line@)),
        *final(hints) == screen_hints(lines.push(line@)),
        *final(hints) <= *old(hints) + 1,
{
    assert(lines.push(line@).drop_last() =~= lines);
    let s_pattern = "^src/.*";
    let a_pattern = "[^\x00-\x7F]";
    proof {
        reveal_strlit("^src/.*");
        reveal_strlit("[^\x00-\x7F]");
        assert(s_pattern@ =~= source_line_pattern());
        assert(a_pattern@ =~= non_ascii_pattern());
    }
    let text = string_of(line);
    if regex_match_count(s_pattern, text.as_str()) > 0 {
        let mut i: usize = 0;
        let ghost start = kept@;
        while i < line.len()
            invariant
                i <= line@.len(),
                kept@ == start + line@.subrange(0, i as int),
            decreases line.len() - i,
        {
            kept.push(line[i]);
            assert(line@.subrange(0, i + 1) =~= line@.subrange(0, i as int).push(line@[i as int]));
            i = i + 1;
        }
        kept.push('\n');
        assert(line@.subrange(0, line@.len() as int) =~= line@);
        assert(kept@ =~= start + line@.push('\n'));
    } else if line.len() > 0 && regex_match_count(a_pattern, text.as_str())
        > SCREEN_HINT_THRESHOLD {
        *hints = *hints + 1;
    }
}

/// Filters a batch of log text: keeps, in order, the lines written by the
/// firmware's sources, each ended by `\n`, and counts the dropped lines that
/// look like a screen dump.
pub fn filter_logs(input: &str) -> (r: (String, usize))
    ensures
        r.0@ == kept_text(lines_of(input@)),
        r.1 == screen_hints(lines_of(input@)),
{
    let chars = chars_of(input);
    let mut kept: Vec<char> = Vec::new();
    let mut hints: usize = 0;
    let mut cur: Vec<char> = Vec::new();
    let mut i: usize = 0;
    while i < chars.len()
        invariant
            i <= chars@.len(),
            chars@ == input@,
            hints + cur@.len() <= i,
            cur@ == scan_lines(chars@.subrange(0, i as int)).1,
            kept@ == kept_text(scan_lines(chars@.subrange(0, i as int)).0),
            hints == screen_hints(scan_lines(chars@.subrange(0, i as int)).0),
        decreases chars.len() - i,
    {
        let ghost prefix = chars@.subrange(0, i as int);
        let ghost next = chars@.subrange(0, i + 1);
        assert(next.drop_last() =~= prefix);
        let c = chars[i];
        if c == '\n' {
            if cur.len() > 0 && cur[cur.len() - 1] == '\r' {
                cur.pop();
            }
            take_line(cur.as_slice(), &mut kept, &mut hints, Ghost(scan_lines(prefix).0));
            cur = Vec::new();
            assert(cur@ =~= scan_lines(next).1);
        } else {
            cur.push(c);
        }
        i = i + 1;
    }
    assert(chars@.subrange(0, chars@.len() as int) =~= chars@);
    if cur.len() > 0 {
        take_line(cur.as_slice(), &mut kept, &mut hints, Ghost(scan_lines(chars@).0));
    }
    (string_of(kept.as_slice()), hints)
}

} // verus!
