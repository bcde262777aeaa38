use vstd::prelude::*;

verus! {

/// A line segment with one trailing carriage return removed, as the final
/// `\r` of a `\r\n` ending belongs to the line terminator, not to the line.
pub open spec fn strip_cr(l: Seq<char>) -> Seq<char> {
    if l.len() > 0 && l[l.len() - 1] == '\r' {
        l.drop_last()
    } else {
        l
    }
}

/// Index of the first newline in `s`, or `s.len()` if there is none.
pub open spec fn first_nl(s: Seq<char>) -> nat
    decreases s.len(),
{
    if s.len() == 0 {
        0
    } else if s[0] == '\n' {
        0
    } else {
        1 + first_nl(s.drop_first())
    }
}

/// The lines of a text, in file order: segments separated by `\n`, each with a
/// trailing `\r` removed; a trailing terminator yields no empty final line.
pub open spec fn spec_lines(s: Seq<char>) -> Seq<Seq<char>>
    decreases s.len(),
{
    if s.len() == 0 {
        Seq::empty()
    } else {
        let i = first_nl(s);
        let rest = if i < s.len() {
            s.subrange(i as int + 1, s.len() as int)
        } else {
            Seq::<char>::empty()
        };
        seq![strip_cr(s.subrange(0, i as int))] + spec_lines(rest)
    }
}

/// `first_nl` is pinned by its characterisation: no newline before `m`, and a
/// newline (or the end of the text) at `m`.
pub proof fn lemma_first_nl_is(s: Seq<char>, m: int)
    requires
        0 <= m <= s.len(),
        forall|k: int| 0 <= k < m ==> s[k] != '\n',
        m < s.len() ==> s[m] == '\n',
    ensures
        first_nl(s) == m,
    decreases m,
{
    if s.len() == 0 {
    } else if m == 0 {
    } else {
        assert(s[0] != '\n');
        let t = s.drop_first();
        assert forall|k: int| 0 <= k < m - 1 implies t[k] != '\n' by {
            assert(t[k] == s[k + 1]);
        }
        assert(m - 1 < t.len() ==> t[m - 1] == '\n');
        lemma_first_nl_is(t, m - 1);
    }
}

/// Splits a text into its lines, exactly as `spec_lines` describes them.
pub fn split_lines(s: &str) -> (r: Vec<String>)
    ensures
        r@.map_values(|l: String| l@) == spec_lines(s@),
{
    let n: usize = s.unicode_len();
    let mut out: Vec<String> = Vec::new();
    let mut start: usize = 0;
    proof {
        assert(s@.skip(0) =~= s@);
        assert(out@.map_values(|l: String| l@) =~= Seq::<Seq<char>>::empty());
        assert(out@.map_values(|l: String| l@) + spec_lines(s@) =~= spec_lines(s@));
    }
    while start < n
        invariant
            n == s@.len(),
            start <= n,
            spec_lines(s@) == out@.map_values(|l: String| l@) + spec_lines(
                s@.skip(start as int),
            ),
        decreases n - start,
    {
        let ghost prev_out = out@;
        let ghost t = s@.skip(start as int);
        let mut j: usize = start;
        let mut found = false;
        while j < n && !found
            invariant
                n == s@.len(),
                start <= j <= n,
                forall|k: int| start <= k < j ==> s@[k] != '\n',
                found ==> j < n && s@[j as int] == '\n',
            decreases 2 * (n - j) + (if found { 0int } else { 1int }),
        {
            if s.get_char(j) == '\n' {
                found = true;
            } else {
                j += 1;
            }
        }
        let endx: usize = if j > start && s.get_char(j - 1) == '\r' {
            j - 1
        } else {
            j
        };
        let seg = s.substring_char(start, endx);
        out.push(seg.to_owned());
        proof {
            let m = j - start;
            assert forall|k: int| 0 <= k < m implies t[k] != '\n' by {
                assert(t[k] == s@[start + k]);
            }
            assert(m < t.len() ==> t[m] == s@[j as int]);
            lemma_first_nl_is(t, m);
            let raw = t.subrange(0, m);
            assert(raw =~= s@.subrange(start as int, j as int));
            assert(strip_cr(raw) =~= s@.subrange(start as int, endx as int));
            let rest = if m < t.len() {
                t.subrange(m + 1, t.len() as int)
            } else {
                Seq::<char>::empty()
            };
            if j < n {
                assert(rest =~= s@.skip(j + 1));
            } else {
                assert(rest =~= s@.skip(n as int));
            }
            assert(spec_lines(t) == seq![strip_cr(raw)] + spec_lines(rest));
            assert(out@.map_values(|l: String| l@) =~= prev_out.map_values(|l: String| l@)
                + seq![strip_cr(raw)]);
            assert(out@.map_values(|l: String| l@) + spec_lines(rest) =~= prev_out.map_values(
                |l: String| l@,
            ) + spec_lines(t));
        }
        start = if j < n {
            j + 1
        } else {
            n
        };
    }
    proof {
        assert(s@.skip(start as int) =~= Seq::<char>::empty());
        assert(out@.map_values(|l: String| l@) + spec_lines(s@.skip(start as int)) =~= out@
            .map_values(|l: String| l@));
    }
    out
}

} // verus!
