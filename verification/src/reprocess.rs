use vstd::prelude::*;

use crate::filters::{Filter, FilterSpec, Status, regex_matches};
use crate::lines::spec_lines;
use crate::lines::split_lines;

verus! {

/// A line with its control and escape sequences removed, as
/// `strip_ansi_escapes::strip` removes them. The result depends on the
/// characters of the line alone.
pub uninterp spec fn stripped_of(line: Seq<char>) -> Seq<char>;

/// Relies on strip_ansi_escapes::strip: it removes ANSI escape sequences from
/// the bytes of the line, a pure function of those bytes.
#[verifier::external_body]
fn strip_line(line: &str) -> (r: String)
    ensures
        r@ == stripped_of(line@),
{
    String::from_utf8_lossy(&strip_ansi_escapes::strip(line)).into_owned()
}

/// Mathematical model of one display entry.
pub ghost struct LogSpec {
    pub value: Seq<char>,
    pub status: Status,
}

/// One display entry: the stripped text of a matched line together with the
/// classification of the filter that matched it.
#[derive(Debug)]
pub struct LogCS2 {
    pub value: String,
    pub status: Status,
}

impl View for LogCS2 {
    type V = LogSpec;

    open spec fn view(&self) -> LogSpec {
        LogSpec { value: self.value@, status: self.status }
    }
}

/// The entry a filter contributes for a matched line: the stripped text, the
/// filter's classification.
pub open spec fn entry_of(f: FilterSpec, line: Seq<char>) -> LogSpec {
    LogSpec { value: stripped_of(line), status: f.status }
}

/// Whether a filter contributes an entry for a line: it must be enabled and
/// its pattern must match the raw line, control sequences included.
pub open spec fn contributes(f: FilterSpec, line: Seq<char>) -> bool {
    f.is_on && regex_matches(f.pattern, line)
}

/// The entries one line produces: one per contributing filter, in registry
/// order.
pub open spec fn line_entries(fs: Seq<FilterSpec>, line: Seq<char>) -> Seq<LogSpec>
    decreases fs.len(),
{
    if fs.len() == 0 {
        Seq::empty()
    } else {
        let head: Seq<LogSpec> = if contributes(fs[0], line) {
            seq![entry_of(fs[0], line)]
        } else {
            Seq::empty()
        };
        head + line_entries(fs.drop_first(), line)
    }
}

/// The full output of one reprocessing pass: entries grouped by line in file
/// order, within a line by filter in registry order.
pub open spec fn all_entries(fs: Seq<FilterSpec>, lines: Seq<Seq<char>>) -> Seq<LogSpec>
    decreases lines.len(),
{
    if lines.len() == 0 {
        Seq::empty()
    } else {
        line_entries(fs, lines[0]) + all_entries(fs, lines.drop_first())
    }
}

/// The registry seen as a sequence of filter models.
pub open spec fn views_of(filters: Seq<Filter>) -> Seq<FilterSpec> {
    filters.map_values(|f: Filter| f@)
}

pub proof fn lemma_line_entries_take_step(fs: Seq<FilterSpec>, line: Seq<char>, j: int)
    requires
        0 <= j < fs.len(),
    ensures
        line_entries(fs.take(j + 1), line) == line_entries(fs.take(j), line) + (
        if contributes(fs[j], line) {
            seq![entry_of(fs[j], line)]
        } else {
            Seq::<LogSpec>::empty()
        }),
    decreases j,
{
    let a = fs.take(j + 1);
    let b = fs.take(j);
    if j == 0 {
        assert(b =~= Seq::<FilterSpec>::empty());
        assert(a.drop_first() =~= Seq::<FilterSpec>::empty());
        assert(line_entries(a, line) =~= line_entries(b, line) + (if contributes(fs[0], line) {
            seq![entry_of(fs[0], line)]
        } else {
            Seq::<LogSpec>::empty()
        }));
    } else {
        lemma_line_entries_take_step(fs.drop_first(), line, j - 1);
        assert(a.drop_first() =~= fs.drop_first().take(j));
        assert(b.drop_first() =~= fs.drop_first().take(j - 1));
        assert(fs.drop_first()[j - 1] == fs[j]);
        assert(line_entries(a, line) =~= line_entries(b, line) + (if contributes(fs[j], line) {
            seq![entry_of(fs[j], line)]
        } else {
            Seq::<LogSpec>::empty()
        }));
    }
}

pub proof fn lemma_all_entries_take_step(fs: Seq<FilterSpec>, lines: Seq<Seq<char>>, i: int)
    requires
        0 <= i < lines.len(),
    ensures
        all_entries(fs, lines.take(i + 1)) == all_entries(fs, lines.take(i)) + line_entries(
            fs,
            lines[i],
        ),
    decreases i,
{
    let a = lines.take(i + 1);
    let b = lines.take(i);
    if i == 0 {
        assert(b =~= Seq::<Seq<char>>::empty());
        assert(a.drop_first() =~= Seq::<Seq<char>>::empty());
        assert(all_entries(fs, a) =~= all_entries(fs, b) + line_entries(fs, lines[0]));
    } else {
        lemma_all_entries_take_step(fs, lines.drop_first(), i - 1);
        assert(a.drop_first() =~= lines.drop_first().take(i));
        assert(b.drop_first() =~= lines.drop_first().take(i - 1));
        assert(lines.drop_first()[i - 1] == lines[i]);
        assert(all_entries(fs, a) =~= all_entries(fs, b) + line_entries(fs, lines[i]));
    }
}

/// One full reprocessing pass over already-split lines: for each line in file
/// order, for each enabled filter in registry order whose pattern matches the
/// raw line, one entry with the stripped text and the filter's classification.
pub fn reprocess_lines(filters: &Vec<Filter>, lines: &Vec<String>) -> (r: Vec<LogCS2>)
    ensures
        r@.map_values(|e: LogCS2| e@) == all_entries(
            views_of(filters@),
            lines@.map_values(|l: String| l@),
        ),
{
    let ghost fs = views_of(filters@);
    let ghost ls = lines@.map_values(|l: String| l@);
    let mut out: Vec<LogCS2> = Vec::new();
    proof {
        assert(ls.take(0) =~= Seq::<Seq<char>>::empty());
        assert(out@.map_values(|e: LogCS2| e@) =~= all_entries(fs, ls.take(0)));
    }
    let mut i: usize = 0;
    while i < lines.len()
        invariant
            fs == views_of(filters@),
            ls == lines@.map_values(|l: String| l@),
            i <= lines.len(),
            out@.map_values(|e: LogCS2| e@) == all_entries(fs, ls.take(i as int)),
        decreases lines.len() - i,
    {
        let line: &String = &lines[i];
        proof {
            assert(fs.take(0) =~= Seq::<FilterSpec>::empty());
            assert(out@.map_values(|e: LogCS2| e@) + line_entries(fs.take(0), line@)
                =~= all_entries(fs, ls.take(i as int)));
        }
        let ghost out_before = out@;
        let mut j: usize = 0;
        while j < filters.len()
            invariant
                fs == views_of(filters@),
                i < lines.len(),
                line@ == lines@[i as int]@,
                j <= filters.len(),
                out@.map_values(|e: LogCS2| e@) == out_before.map_values(|e: LogCS2| e@)
                    + line_entries(fs.take(j as int), line@),
                out_before.map_values(|e: LogCS2| e@) == all_entries(fs, ls.take(i as int)),
            decreases filters.len() - j,
        {
            let f: &Filter = &filters[j];
            if f.is_on && f.match_regex(line.as_str()) {
                let entry = LogCS2 { value: strip_line(line.as_str()), status: f.get_status() };
                let ghost pre = out@;
                proof {
                    assert(fs[j as int] == filters@[j as int]@);
                    assert(contributes(fs[j as int], line@));
                    assert(entry@ == entry_of(fs[j as int], line@));
                }
                out.push(entry);
                proof {
                    lemma_line_entries_take_step(fs, line@, j as int);
                    assert(out@.map_values(|e: LogCS2| e@) =~= pre.map_values(|e: LogCS2| e@)
                        + seq![entry_of(fs[j as int], line@)]);
                    assert(pre.map_values(|e: LogCS2| e@) + seq![entry_of(fs[j as int], line@)]
                        =~= out_before.map_values(|e: LogCS2| e@) + line_entries(
                        fs.take(j + 1),
                        line@,
                    ));
                }
            } else {
                proof {
                    assert(fs[j as int] == filters@[j as int]@);
                    assert(!contributes(fs[j as int], line@));
                    lemma_line_entries_take_step(fs, line@, j as int);
                    assert(out@.map_values(|e: LogCS2| e@) =~= out_before.map_values(
                        |e: LogCS2| e@,
                    ) + line_entries(fs.take(j + 1), line@));
                }
            }
            j += 1;
        }
        proof {
            assert(fs.take(filters@.len() as int) =~= fs);
            assert(ls[i as int] == line@);
            lemma_all_entries_take_step(fs, ls, i as int);
            assert(out@.map_values(|e: LogCS2| e@) =~= all_entries(fs, ls.take(i + 1)));
        }
        i += 1;
    }
    proof {
        assert(ls.take(lines@.len() as int) =~= ls);
    }
    out
}

/// One full reprocessing pass over raw file contents: the text is split into
/// lines and each line is filtered as `reprocess_lines` describes.
pub fn reprocess(filters: &Vec<Filter>, contents: &str) -> (r: Vec<LogCS2>)
    ensures
        r@.map_values(|e: LogCS2| e@) == all_entries(views_of(filters@), spec_lines(contents@)),
{
    let lines = split_lines(contents);
    reprocess_lines(filters, &lines)
}


/// A reprocessing pass is deterministic: an unchanged text filtered through
/// an unchanged registry yields one and the same entry sequence, however
/// often it is repeated.
pub proof fn lemma_reprocess_deterministic(
    fs: Seq<FilterSpec>,
    contents: Seq<char>,
    a: Seq<LogSpec>,
    b: Seq<LogSpec>,
)
    requires
        a == all_entries(fs, spec_lines(contents)),
        b == all_entries(fs, spec_lines(contents)),
    ensures
        a == b,
{
}

/// A line to which no filter contributes (each is off or fails to match)
/// produces no entry at all.
pub proof fn lemma_no_contribution_no_entries(fs: Seq<FilterSpec>, line: Seq<char>)
    requires
        forall|j: int| 0 <= j < fs.len() ==> !contributes(fs[j], line),
    ensures
        line_entries(fs, line) == Seq::<LogSpec>::empty(),
    decreases fs.len(),
{
    if fs.len() > 0 {
        let t = fs.drop_first();
        assert forall|k: int| 0 <= k < t.len() implies !contributes(t[k], line) by {
            assert(t[k] == fs[k + 1]);
        }
        lemma_no_contribution_no_entries(t, line);
        assert(line_entries(fs, line) =~= Seq::<LogSpec>::empty());
    }
}

/// A line whose every matching filter is disabled yields zero entries.
pub proof fn lemma_disabled_filters_produce_nothing(fs: Seq<FilterSpec>, line: Seq<char>)
    requires
        forall|j: int|
            0 <= j < fs.len() && regex_matches(fs[j].pattern, line) ==> !fs[j].is_on,
    ensures
        line_entries(fs, line) == Seq::<LogSpec>::empty(),
{
    assert forall|j: int| 0 <= j < fs.len() implies !contributes(fs[j], line) by {}
    lemma_no_contribution_no_entries(fs, line);
}

/// Registry order is display precedence: when a line matches exactly the
/// first two filters of the registry, both enabled, its output is the first
/// filter's entry immediately followed by the second's, and nothing else.
pub proof fn lemma_filter_order_precedence(fs: Seq<FilterSpec>, line: Seq<char>)
    requires
        fs.len() >= 2,
        contributes(fs[0], line),
        contributes(fs[1], line),
        forall|k: int| 2 <= k < fs.len() ==> !contributes(fs[k], line),
    ensures
        line_entries(fs, line) == seq![entry_of(fs[0], line), entry_of(fs[1], line)],
{
    let t1 = fs.drop_first();
    let t2 = t1.drop_first();
    assert forall|k: int| 0 <= k < t2.len() implies !contributes(t2[k], line) by {
        assert(t2[k] == fs[k + 2]);
    }
    lemma_no_contribution_no_entries(t2, line);
    assert(t1[0] == fs[1]);
    assert(contributes(t1[0], line));
    assert(line_entries(t1, line) =~= seq![entry_of(fs[1], line)]);
    assert(line_entries(fs, line) =~= seq![entry_of(fs[0], line), entry_of(fs[1], line)]);
}

/// Some entry of a line can always be traced back to an enabled, matching
/// filter.
pub proof fn lemma_line_entry_witness(fs: Seq<FilterSpec>, line: Seq<char>, k: int)
    requires
        0 <= k < line_entries(fs, line).len(),
    ensures
        exists|j: int|
            0 <= j < fs.len() && contributes(fs[j], line) && line_entries(fs, line)[k]
                == entry_of(fs[j], line),
    decreases fs.len(),
{
    let t = fs.drop_first();
    if contributes(fs[0], line) {
        if k == 0 {
            assert(line_entries(fs, line)[0] == entry_of(fs[0], line));
            assert(0 <= 0 < fs.len() && contributes(fs[0], line) && line_entries(fs, line)[0]
                == entry_of(fs[0], line));
        } else {
            lemma_line_entry_witness(t, line, k - 1);
            let j0 = choose|j0: int|
                0 <= j0 < t.len() && contributes(t[j0], line) && line_entries(t, line)[k - 1]
                    == entry_of(t[j0], line);
            assert(t[j0] == fs[j0 + 1]);
            assert(line_entries(fs, line)[k] == line_entries(t, line)[k - 1]);
            assert(0 <= j0 + 1 < fs.len() && contributes(fs[j0 + 1], line) && line_entries(
                fs,
                line,
            )[k] == entry_of(fs[j0 + 1], line));
        }
    } else {
        lemma_line_entry_witness(t, line, k);
        let j0 = choose|j0: int|
            0 <= j0 < t.len() && contributes(t[j0], line) && line_entries(t, line)[k]
                == entry_of(t[j0], line);
        assert(t[j0] == fs[j0 + 1]);
        assert(line_entries(fs, line)[k] == line_entries(t, line)[k]);
        assert(0 <= j0 + 1 < fs.len() && contributes(fs[j0 + 1], line) && line_entries(fs, line)[k]
            == entry_of(fs[j0 + 1], line));
    }
}

/// Whether an entry is one that some line of the text and some enabled,
/// matching filter of the registry would produce.
pub open spec fn from_enabled_filter(
    fs: Seq<FilterSpec>,
    lines: Seq<Seq<char>>,
    e: LogSpec,
) -> bool {
    exists|i: int, j: int|
        0 <= i < lines.len() && 0 <= j < fs.len() && contributes(fs[j], lines[i]) && e == entry_of(
            fs[j],
            lines[i],
        )
}

/// Every entry of a pass comes from a filter that is enabled during that
/// pass: once a filter is toggled off, the next pass cannot contain an entry
/// of its making.
pub proof fn lemma_entries_from_enabled(fs: Seq<FilterSpec>, lines: Seq<Seq<char>>, k: int)
    requires
        0 <= k < all_entries(fs, lines).len(),
    ensures
        from_enabled_filter(fs, lines, all_entries(fs, lines)[k]),
    decreases lines.len(),
{
    let le = line_entries(fs, lines[0]);
    let t = lines.drop_first();
    if k < le.len() {
        assert(all_entries(fs, lines)[k] == le[k]);
        lemma_line_entry_witness(fs, lines[0], k);
        let j0 = choose|j0: int|
            0 <= j0 < fs.len() && contributes(fs[j0], lines[0]) && le[k] == entry_of(
                fs[j0],
                lines[0],
            );
        assert(0 <= 0 < lines.len() && 0 <= j0 < fs.len() && contributes(fs[j0], lines[0])
            && all_entries(fs, lines)[k] == entry_of(fs[j0], lines[0]));
    } else {
        lemma_entries_from_enabled(fs, t, k - le.len());
        assert(all_entries(fs, lines)[k] == all_entries(fs, t)[k - le.len()]);
        let (i0, j0) = choose|i0: int, j0: int|
            0 <= i0 < t.len() && 0 <= j0 < fs.len() && contributes(fs[j0], t[i0]) && all_entries(
                fs,
                t,
            )[k - le.len()] == entry_of(fs[j0], t[i0]);
        assert(t[i0] == lines[i0 + 1]);
        assert(0 <= i0 + 1 < lines.len() && 0 <= j0 < fs.len() && contributes(fs[j0], lines[i0 + 1])
            && all_entries(fs, lines)[k] == entry_of(fs[j0], lines[i0 + 1]));
    }
}

/// Matching is decided on the raw line while the display shows the stripped
/// one: every entry a line contributes carries the control-sequence-stripped
/// text, even though its filter matched against the unmodified line.
pub proof fn lemma_display_text_stripped(fs: Seq<FilterSpec>, line: Seq<char>, k: int)
    requires
        0 <= k < line_entries(fs, line).len(),
    ensures
        line_entries(fs, line)[k].value == stripped_of(line),
{
    lemma_line_entry_witness(fs, line, k);
}

} // verus!
