//! Scanning one file's text for matching lines.
//!
//! [`scan_content`] finds every line the matcher accepts, with its 1-based
//! line number; [`scan_file_text`] adds the output formatting: nothing at
//! all when no line matches, else a header line holding the file's path
//! followed by one `number: text` line per match, in file order.

use vstd::prelude::*;

use crate::matcher::{regex_accepts, Matcher};
use crate::text::{
    lemma_lines_count, lemma_lines_single, lemma_lines_step, spec_dec, spec_lines, strip_cr,
    usize_to_string,
};

verus! {

/// One matching line: its 1-based line number and its text.
pub struct MatchRecord {
    pub line_number: usize,
    pub text: String,
}

impl View for MatchRecord {
    type V = (int, Seq<char>);

    open spec fn view(&self) -> (int, Seq<char>) {
        (self.line_number as int, self.text@)
    }
}

/// The records for the accepted lines among the first `upto` lines:
/// `(j + 1, lines[j])` for each accepted `lines[j]`, in order.
pub open spec fn spec_matches(
    lines: Seq<Seq<char>>,
    upto: int,
    pattern: Seq<char>,
    ci: bool,
) -> Seq<(int, Seq<char>)>
    decreases upto,
{
    if upto <= 0 {
        Seq::empty()
    } else {
        let rest = spec_matches(lines, upto - 1, pattern, ci);
        if regex_accepts(pattern, ci, lines[upto - 1]) {
            rest.push((upto, lines[upto - 1]))
        } else {
            rest
        }
    }
}

/// Every record points at an accepted line and carries its text.
pub proof fn lemma_matches_sound(lines: Seq<Seq<char>>, upto: int, pattern: Seq<char>, ci: bool)
    requires
        0 <= upto <= lines.len(),
    ensures
        forall|k: int|
            0 <= k < spec_matches(lines, upto, pattern, ci).len() ==> {
                let rec = #[trigger] spec_matches(lines, upto, pattern, ci)[k];
                &&& 1 <= rec.0 <= upto
                &&& rec.1 == lines[rec.0 - 1]
                &&& regex_accepts(pattern, ci, lines[rec.0 - 1])
            },
    decreases upto,
{
    if upto > 0 {
        lemma_matches_sound(lines, upto - 1, pattern, ci);
        let rest = spec_matches(lines, upto - 1, pattern, ci);
        let ms = spec_matches(lines, upto, pattern, ci);
        assert forall|k: int| 0 <= k < ms.len() implies {
            let rec = #[trigger] ms[k];
            &&& 1 <= rec.0 <= upto
            &&& rec.1 == lines[rec.0 - 1]
            &&& regex_accepts(pattern, ci, lines[rec.0 - 1])
        } by {
            if k < rest.len() {
                assert(ms[k] == rest[k]);
            }
        }
    }
}

/// Every accepted line has its record.
pub proof fn lemma_matches_complete(
    lines: Seq<Seq<char>>,
    upto: int,
    pattern: Seq<char>,
    ci: bool,
    j: int,
)
    requires
        0 <= j < upto <= lines.len(),
        regex_accepts(pattern, ci, lines[j]),
    ensures
        spec_matches(lines, upto, pattern, ci).contains((j + 1, lines[j])),
    decreases upto,
{
    let ms = spec_matches(lines, upto, pattern, ci);
    if j == upto - 1 {
        assert(ms[ms.len() - 1] == (j + 1, lines[j]));
    } else {
        lemma_matches_complete(lines, upto - 1, pattern, ci, j);
        let prev = spec_matches(lines, upto - 1, pattern, ci);
        let k = choose|k: int| 0 <= k < prev.len() && prev[k] == (j + 1, lines[j]);
        assert(ms[k] == (j + 1, lines[j]));
    }
}

/// A line is reported if and only if the matcher accepts it, and its record
/// carries its 1-based position.
pub proof fn lemma_report_iff(lines: Seq<Seq<char>>, pattern: Seq<char>, ci: bool, j: int)
    requires
        0 <= j < lines.len(),
    ensures
        regex_accepts(pattern, ci, lines[j]) <==> spec_matches(
            lines,
            lines.len() as int,
            pattern,
            ci,
        ).contains((j + 1, lines[j])),
{
    lemma_matches_sound(lines, lines.len() as int, pattern, ci);
    if regex_accepts(pattern, ci, lines[j]) {
        lemma_matches_complete(lines, lines.len() as int, pattern, ci, j);
    }
    if spec_matches(lines, lines.len() as int, pattern, ci).contains((j + 1, lines[j])) {
        let ms = spec_matches(lines, lines.len() as int, pattern, ci);
        let k = choose|k: int| 0 <= k < ms.len() && ms[k] == (j + 1, lines[j]);
        assert(1 <= ms[k].0 <= lines.len());
    }
}

/// If no line is accepted, there are no records.
pub proof fn lemma_no_match_no_records(lines: Seq<Seq<char>>, upto: int, pattern: Seq<char>, ci: bool)
    requires
        0 <= upto <= lines.len(),
        forall|j: int| 0 <= j < lines.len() ==> !regex_accepts(pattern, ci, lines[j]),
    ensures
        spec_matches(lines, upto, pattern, ci) == Seq::<(int, Seq<char>)>::empty(),
    decreases upto,
{
    if upto > 0 {
        lemma_no_match_no_records(lines, upto - 1, pattern, ci);
    }
}

/// The records for every line of `content` the matcher accepts, in file
/// order, each with its 1-based line number.
pub fn scan_content(content: &str, m: &Matcher) -> (r: Vec<MatchRecord>)
    ensures
        r@.map_values(|rec: MatchRecord| rec@) == spec_matches(
            spec_lines(content@),
            spec_lines(content@).len() as int,
            m.spec_pattern(),
            m.spec_ci(),
        ),
{
    let ghost s = content@;
    let ghost all_lines = spec_lines(s);
    let n = content.unicode_len();
    let mut i: usize = 0;
    let mut start: usize = 0;
    let mut lines_done: usize = 0;
    let mut records: Vec<MatchRecord> = Vec::new();
    proof {
        lemma_lines_count(s);
        assert(s.subrange(0, s.len() as int) =~= s);
        assert(all_lines.subrange(0, 0) + spec_lines(s.subrange(0, s.len() as int)) =~= all_lines);
    }
    while i < n
        invariant
            n == s.len(),
            s == content@,
            all_lines == spec_lines(s),
            0 <= start <= i <= n,
            lines_done <= start,
            lines_done <= all_lines.len(),
            all_lines.len() <= n,
            forall|k: int| start <= k < i ==> s[k] != '\n',
            all_lines =~= all_lines.subrange(0, lines_done as int) + spec_lines(
                s.subrange(start as int, s.len() as int),
            ),
            records@.map_values(|rec: MatchRecord| rec@) == spec_matches(
                all_lines,
                lines_done as int,
                m.spec_pattern(),
                m.spec_ci(),
            ),
        decreases n - i,
    {
        let c = content.get_char(i);
        if c == '\n' {
            let end = if i > start && content.get_char(i - 1) == '\r' {
                i - 1
            } else {
                i
            };
            let line = content.substring_char(start, end);
            let ghost rest = s.subrange(start as int, s.len() as int);
            proof {
                assert forall|k: int| 0 <= k < i - start implies rest[k] != '\n' by {
                    assert(s[start + k] != '\n');
                }
                assert(rest[i - start] == '\n');
                lemma_lines_step(rest, i - start);
                assert(rest.subrange(0, i - start) =~= s.subrange(start as int, i as int));
                assert(rest.subrange(i - start + 1, rest.len() as int) =~= s.subrange(
                    i + 1,
                    s.len() as int,
                ));
                // the emitted text equals the stripped line
                if i > start && s[i - 1] == '\r' {
                    assert(s.subrange(start as int, i as int).last() == '\r');
                    assert(line@ =~= strip_cr(s.subrange(start as int, i as int)));
                } else {
                    assert(line@ =~= strip_cr(s.subrange(start as int, i as int)));
                }
                assert(all_lines[lines_done as int] == strip_cr(s.subrange(start as int, i as int)));
                assert(all_lines.subrange(0, lines_done as int + 1) + spec_lines(
                    s.subrange(i + 1, s.len() as int),
                ) =~= all_lines);
            }
            let matched = m.is_match(line);
            lines_done += 1;
            if matched {
                let ghost before = records@;
                records.push(MatchRecord { line_number: lines_done, text: line.to_owned() });
                proof {
                    assert(records@.map_values(|rec: MatchRecord| rec@) =~= before.map_values(
                        |rec: MatchRecord| rec@,
                    ).push((lines_done as int, line@)));
                }
            }
            start = i + 1;
        }
        i += 1;
    }
    proof {
        let rest = s.subrange(start as int, s.len() as int);
        if start < n {
            assert forall|k: int| 0 <= k < rest.len() implies rest[k] != '\n' by {
                assert(s[start + k] != '\n');
            }
            lemma_lines_single(rest);
        } else {
            assert(rest =~= Seq::<char>::empty());
        }
    }
    if start < n {
        let line = content.substring_char(start, n);
        proof {
            assert(all_lines[lines_done as int] == s.subrange(start as int, s.len() as int));
            assert(line@ == all_lines[lines_done as int]);
        }
        let matched = m.is_match(line);
        lines_done += 1;
        if matched {
            let ghost before = records@;
            records.push(MatchRecord { line_number: lines_done, text: line.to_owned() });
            proof {
                assert(records@.map_values(|rec: MatchRecord| rec@) =~= before.map_values(
                    |rec: MatchRecord| rec@,
                ).push((lines_done as int, line@)));
            }
        }
        proof {
            assert(all_lines.subrange(0, lines_done as int) =~= all_lines);
        }
    } else {
        proof {
            assert(all_lines.subrange(0, lines_done as int) =~= all_lines);
        }
    }
    records
}

/// One output line for one record: `number: text`.
pub open spec fn spec_format_record(rec: (int, Seq<char>)) -> Seq<char> {
    spec_dec(rec.0 as nat) + seq![':', ' '] + rec.1
}

/// Renders one record as `number: text`.
pub fn format_record(rec: &MatchRecord) -> (r: String)
    ensures
        r@ == spec_format_record(rec@),
{
    let mut r = usize_to_string(rec.line_number);
    proof {
        reveal_strlit(": ");
    }
    r.append(": ");
    r.append(rec.text.as_str());
    proof {
        assert(r@ =~= spec_format_record(rec@));
    }
    r
}

/// The whole output for one file: empty when nothing matches, else the
/// file's path as a header followed by one formatted line per match.
pub open spec fn spec_file_output(
    path: Seq<char>,
    content: Seq<char>,
    pattern: Seq<char>,
    ci: bool,
) -> Seq<Seq<char>> {
    let ms = spec_matches(spec_lines(content), spec_lines(content).len() as int, pattern, ci);
    if ms.len() == 0 {
        Seq::empty()
    } else {
        seq![path] + ms.map_values(|rec: (int, Seq<char>)| spec_format_record(rec))
    }
}

/// A file with no accepted line contributes no output at all.
pub proof fn lemma_no_match_no_output(
    path: Seq<char>,
    content: Seq<char>,
    pattern: Seq<char>,
    ci: bool,
)
    requires
        forall|j: int|
            0 <= j < spec_lines(content).len() ==> !regex_accepts(
                pattern,
                ci,
                spec_lines(content)[j],
            ),
    ensures
        spec_file_output(path, content, pattern, ci) == Seq::<Seq<char>>::empty(),
{
    lemma_no_match_no_records(
        spec_lines(content),
        spec_lines(content).len() as int,
        pattern,
        ci,
    );
}

/// One search is a function of the path, the content, the pattern and the
/// flag alone: two runs over the same values give identical output.
pub proof fn lemma_output_deterministic(
    a: Seq<Seq<char>>,
    b: Seq<Seq<char>>,
    path: Seq<char>,
    content: Seq<char>,
    pattern: Seq<char>,
    ci: bool,
)
    requires
        a == spec_file_output(path, content, pattern, ci),
        b == spec_file_output(path, content, pattern, ci),
    ensures
        a == b,
{
}

/// Scans `content` and formats the matches under a `path` header.
pub fn scan_file_text(path: &str, content: &str, m: &Matcher) -> (r: Vec<String>)
    ensures
        r@.map_values(|l: String| l@) == spec_file_output(
            path@,
            content@,
            m.spec_pattern(),
            m.spec_ci(),
        ),
{
    let records = scan_content(content, m);
    let ghost ms = spec_matches(
        spec_lines(content@),
        spec_lines(content@).len() as int,
        m.spec_pattern(),
        m.spec_ci(),
    );
    let mut out: Vec<String> = Vec::new();
    if records.len() == 0 {
        proof {
            assert(out@.map_values(|l: String| l@) =~= spec_file_output(
                path@,
                content@,
                m.spec_pattern(),
                m.spec_ci(),
            ));
        }
        return out;
    }
    out.push(path.to_owned());
    let mut j: usize = 0;
    while j < records.len()
        invariant
            0 <= j <= records@.len(),
            records@.map_values(|rec: MatchRecord| rec@) == ms,
            ms.len() > 0,
            out@.map_values(|l: String| l@) =~= seq![path@] + ms.map_values(
                |rec: (int, Seq<char>)| spec_format_record(rec),
            ).take(j as int),
        decreases records@.len() - j,
    {
        let line = format_record(&records[j]);
        let ghost before = out@;
        out.push(line);
        proof {
            assert(out@.map_values(|l: String| l@) =~= before.map_values(|l: String| l@).push(
                spec_format_record(records@[j as int]@),
            ));
            assert(out@.map_values(|l: String| l@) =~= seq![path@] + ms.map_values(
                |rec: (int, Seq<char>)| spec_format_record(rec),
            ).take(j as int + 1));
        }
        j += 1;
    }
    proof {
        assert(ms.map_values(|rec: (int, Seq<char>)| spec_format_record(rec)).take(j as int)
            =~= ms.map_values(|rec: (int, Seq<char>)| spec_format_record(rec)));
    }
    out
}

} // verus!
