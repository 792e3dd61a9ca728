//! Lichess open database catalog parsing.

use vstd::prelude::*;
use vstd::utf8::encode_utf8;

use crate::decimal::{push_signed_decimal, signed_decimal};
use crate::text::{
    chars_less, chars_lt, chars_of, ends_with, lemma_chars_lt_asymmetric, lemma_split_on_nonempty,
    matches_at, pieces_view, split_chars, split_on, starts_with, string_from_chars, sub_chars,
    trim, trim_bounds,
};

verus! {

/// One entry from the Lichess standard rated catalog.
#[derive(Debug, Clone, PartialEq, Eq)]
pub struct CatalogEntry {
    /// Full download URL.
    pub url: String,
    /// Filename component (e.g. `lichess_db_standard_rated_2024-01.pgn.zst`).
    pub filename: String,
    /// Period label (e.g. `2024-01`).
    pub period_label: String,
}

/// A catalog entry as (url, filename, period label).
pub type EntryView = (Seq<char>, Seq<char>, Seq<char>);

impl View for CatalogEntry {
    type V = EntryView;

    open spec fn view(&self) -> EntryView {
        (self.url@, self.filename@, self.period_label@)
    }
}

/// The views of a list of entries.
pub open spec fn entries_view(v: Seq<CatalogEntry>) -> Seq<EntryView> {
    Seq::new(v.len(), |i: int| v[i]@)
}

/// The period label of a shard file name: the text after the last '_' of the name
/// without its ".pgn.zst" suffix, when it is seven bytes with a '-' at byte four.
pub open spec fn spec_extract_period(filename: Seq<char>) -> Option<Seq<char>> {
    if !ends_with(filename, ".pgn.zst"@) {
        None
    } else {
        let stem = filename.take(filename.len() - ".pgn.zst"@.len());
        let period = split_on(stem, '_').last();
        if encode_utf8(period).len() == 7 && encode_utf8(period)[4] == 45u8 {
            Some(period)
        } else {
            None
        }
    }
}

/// The entry a catalog line describes, if any: the trimmed line must start with
/// "http", and its last path segment must carry a period label.
pub open spec fn spec_line_entry(line: Seq<char>) -> Option<EntryView> {
    let url = trim(line);
    if url.len() == 0 || !starts_with(url, "http"@) {
        None
    } else {
        let filename = split_on(url, '/').last();
        match spec_extract_period(filename) {
            Some(p) => Some((url, filename, p)),
            None => None,
        }
    }
}

/// The period prefix that selects one year: the year in decimal, then '-'.
pub open spec fn year_prefix(y: int) -> Seq<char> {
    signed_decimal(y) + seq!['-']
}

/// Whether an entry is kept under the optional year filter.
pub open spec fn keep_entry(e: EntryView, year: Option<i32>) -> bool {
    match year {
        Some(y) => starts_with(e.2, year_prefix(y as int)),
        None => true,
    }
}

/// Entries of the catalog lines, in line order, kept by the year filter.
pub open spec fn selected_entries(lines: Seq<Seq<char>>, year: Option<i32>) -> Seq<EntryView>
    decreases lines.len(),
{
    if lines.len() == 0 {
        Seq::empty()
    } else {
        let rest = selected_entries(lines.drop_last(), year);
        match spec_line_entry(lines.last()) {
            Some(e) => if keep_entry(e, year) {
                rest.push(e)
            } else {
                rest
            },
            None => rest,
        }
    }
}

/// Position where a stable insertion puts an entry: before the first entry whose
/// label sorts strictly after its label.
pub open spec fn insert_pos(s: Seq<EntryView>, label: Seq<char>) -> int
    decreases s.len(),
{
    if s.len() == 0 {
        0
    } else if chars_lt(label, s[0].2) {
        0
    } else {
        1 + insert_pos(s.drop_first(), label)
    }
}

/// Stable sort by period label.
pub open spec fn sort_by_label(s: Seq<EntryView>) -> Seq<EntryView>
    decreases s.len(),
{
    if s.len() == 0 {
        Seq::empty()
    } else {
        let sorted = sort_by_label(s.drop_last());
        sorted.insert(insert_pos(sorted, s.last().2), s.last())
    }
}

/// The catalog entries of `text`, filtered by year and sorted by period label.
/// Lines are the pieces between '\n'; a trailing '\r' or a final empty piece is
/// removed by trimming, as `str::lines` would remove it.
pub open spec fn spec_parse_catalog(text: Seq<char>, year: Option<i32>) -> Seq<EntryView> {
    sort_by_label(selected_entries(split_on(text, '\n'), year))
}

fn period_chars(filename: &[char]) -> (r: Option<Vec<char>>)
    ensures
        r matches Some(p) ==> spec_extract_period(filename@) == Some(p@),
        r is None ==> spec_extract_period(filename@) is None,
{
    let suffix = chars_of(".pgn.zst");
    let n = filename.len();
    if suffix.len() > n {
        return None;
    }
    let cut = n - suffix.len();
    if !matches_at(filename, cut, suffix.as_slice()) {
        assert(filename@.skip(cut as int).take(suffix@.len() as int) == filename@.skip(cut as int));
        return None;
    }
    assert(filename@.skip(cut as int).take(suffix@.len() as int) == filename@.skip(cut as int));
    let stem = sub_chars(filename, 0, cut);
    assert(stem@ == filename@.take(filename@.len() - ".pgn.zst"@.len()));
    let parts = split_chars(stem.as_slice(), '_');
    proof {
        lemma_split_on_nonempty(stem@, '_');
    }
    let last = parts.len() - 1;
    let period = sub_chars(parts[last].as_slice(), 0, parts[last].len());
    assert(period@ == parts[last as int]@.subrange(0, parts[last as int]@.len() as int));
    assert(period@ == split_on(stem@, '_').last());
    let text = string_from_chars(period.as_slice());
    let bytes = text.as_str().as_bytes();
    if bytes.len() == 7 && bytes[4] == 45u8 {
        Some(period)
    } else {
        None
    }
}

/// Extracts the period label (e.g. "2024-03") from a shard file name.
pub fn extract_period(filename: &str) -> (r: Option<String>)
    ensures
        r matches Some(p) ==> spec_extract_period(filename@) == Some(p@),
        r is None ==> spec_extract_period(filename@) is None,
{
    let cs = chars_of(filename);
    match period_chars(cs.as_slice()) {
        Some(p) => Some(string_from_chars(p.as_slice())),
        None => None,
    }
}

fn line_entry(line: &[char]) -> (r: Option<CatalogEntry>)
    ensures
        r matches Some(e) ==> spec_line_entry(line@) == Some(e@),
        r is None ==> spec_line_entry(line@) is None,
{
    let (a, b) = trim_bounds(line, 0, line.len());
    assert(line@.subrange(0, line@.len() as int) == line@);
    let url = sub_chars(line, a, b);
    let http = chars_of("http");
    assert(url@.skip(0) == url@);
    if url.len() == 0 || !matches_at(url.as_slice(), 0, http.as_slice()) {
        return None;
    }
    let parts = split_chars(url.as_slice(), '/');
    proof {
        lemma_split_on_nonempty(url@, '/');
    }
    let last = parts.len() - 1;
    let filename = sub_chars(parts[last].as_slice(), 0, parts[last].len());
    assert(filename@ == parts[last as int]@.subrange(0, parts[last as int]@.len() as int));
    assert(filename@ == split_on(url@, '/').last());
    match period_chars(filename.as_slice()) {
        Some(p) => Some(
            CatalogEntry {
                url: string_from_chars(url.as_slice()),
                filename: string_from_chars(filename.as_slice()),
                period_label: string_from_chars(p.as_slice()),
            },
        ),
        None => None,
    }
}

fn insert_position(sorted: &Vec<CatalogEntry>, label: &[char]) -> (p: usize)
    ensures
        p as int == insert_pos(entries_view(sorted@), label@),
        p <= sorted@.len(),
{
    let mut i: usize = 0;
    assert(entries_view(sorted@).skip(0) == entries_view(sorted@));
    while i < sorted.len()
        invariant
            i <= sorted@.len(),
            insert_pos(entries_view(sorted@), label@) == i + insert_pos(
                entries_view(sorted@).skip(i as int),
                label@,
            ),
        decreases sorted@.len() - i,
    {
        let other = chars_of(sorted[i].period_label.as_str());
        assert(entries_view(sorted@).skip(i as int)[0] == sorted@[i as int]@);
        if chars_less(label, other.as_slice()) {
            return i;
        }
        assert(entries_view(sorted@).skip(i as int).drop_first() == entries_view(sorted@).skip(
            i + 1,
        ));
        i = i + 1;
    }
    assert(entries_view(sorted@).skip(i as int) =~= Seq::<EntryView>::empty());
    i
}

/// Parses catalog text into entries, optionally filtered by year, sorted by period.
pub fn parse_catalog(text: &str, year: Option<i32>) -> (r: Vec<CatalogEntry>)
    ensures
        entries_view(r@) == spec_parse_catalog(text@, year),
        sorted_by_label(entries_view(r@)),
        entries_view(r@).to_multiset() == selected_entries(split_on(text@, '\n'), year).to_multiset(),
{
    proof {
        lemma_sort_by_label_sorted(selected_entries(split_on(text@, '\n'), year));
        lemma_sort_by_label_permutes(selected_entries(split_on(text@, '\n'), year));
    }
    let cs = chars_of(text);
    let lines = split_chars(cs.as_slice(), '\n');
    let ghost ls = split_on(text@, '\n');
    assert(pieces_view(lines@) == ls);
    let mut prefix: Vec<char> = Vec::new();
    if let Some(y) = year {
        push_signed_decimal(&mut prefix, y as i64);
        prefix.push('-');
        assert(prefix@ =~= year_prefix(y as int));
    }
    let mut out: Vec<CatalogEntry> = Vec::new();
    let mut i: usize = 0;
    while i < lines.len()
        invariant
            i <= lines@.len(),
            pieces_view(lines@) == ls,
            year matches Some(y) ==> prefix@ == year_prefix(y as int),
            entries_view(out@) == sort_by_label(selected_entries(ls.take(i as int), year)),
        decreases lines@.len() - i,
    {
        let ghost before = selected_entries(ls.take(i as int), year);
        proof {
            assert(ls.take(i + 1).drop_last() == ls.take(i as int));
            assert(ls.take(i + 1).last() == lines@[i as int]@);
        }
        match line_entry(lines[i].as_slice()) {
            Some(e) => {
                let keep = match year {
                    Some(_) => {
                        let label = chars_of(e.period_label.as_str());
                        assert(label@.skip(0) == label@);
                        matches_at(label.as_slice(), 0, prefix.as_slice())
                    },
                    None => true,
                };
                if keep {
                    let label = chars_of(e.period_label.as_str());
                    let p = insert_position(&out, label.as_slice());
                    let ghost ev = e@;
                    out.insert(p, e);
                    assert(selected_entries(ls.take(i + 1), year) == before.push(ev));
                    assert(before.push(ev).drop_last() == before);
                    assert(entries_view(out@) =~= sort_by_label(before.push(ev)));
                }
            },
            None => {},
        }
        i = i + 1;
    }
    assert(ls.take(lines@.len() as int) == ls);
    out
}

/// Whether entries are in nondecreasing order of period label.
pub open spec fn sorted_by_label(s: Seq<EntryView>) -> bool {
    forall|i: int| 0 <= i < s.len() - 1 ==> !chars_lt(#[trigger] s[i + 1].2, s[i].2)
}

proof fn lemma_insert_pos_bounds(s: Seq<EntryView>, label: Seq<char>)
    ensures
        0 <= insert_pos(s, label) <= s.len(),
        forall|q: int| 0 <= q < insert_pos(s, label) ==> !chars_lt(label, #[trigger] s[q].2),
        insert_pos(s, label) < s.len() ==> chars_lt(label, s[insert_pos(s, label)].2),
    decreases s.len(),
{
    if s.len() > 0 && !chars_lt(label, s[0].2) {
        lemma_insert_pos_bounds(s.drop_first(), label);
        assert forall|q: int| 0 <= q < insert_pos(s, label) implies !chars_lt(
            label,
            #[trigger] s[q].2,
        ) by {
            if q > 0 {
                assert(s[q] == s.drop_first()[q - 1]);
            }
        }
    }
}

/// Law: the parsed catalog is in nondecreasing order of period label.
pub proof fn lemma_sort_by_label_sorted(s: Seq<EntryView>)
    ensures
        sorted_by_label(sort_by_label(s)),
        sort_by_label(s).len() == s.len(),
    decreases s.len(),
{
    if s.len() > 0 {
        lemma_sort_by_label_sorted(s.drop_last());
        let t = sort_by_label(s.drop_last());
        let e = s.last();
        let p = insert_pos(t, e.2);
        lemma_insert_pos_bounds(t, e.2);
        let r = t.insert(p, e);
        assert forall|i: int| 0 <= i < r.len() - 1 implies !chars_lt(#[trigger] r[i + 1].2, r[i].2) by {
            if i + 1 < p {
                assert(r[i] == t[i] && r[i + 1] == t[i + 1]);
                assert(!chars_lt(t[i + 1].2, t[i].2));
            } else if i + 1 == p {
                assert(r[i] == t[i] && r[i + 1] == e);
                assert(!chars_lt(e.2, t[i].2));
            } else if i == p {
                assert(r[i] == e && r[i + 1] == t[p]);
                lemma_chars_lt_asymmetric(e.2, t[p].2);
            } else {
                assert(r[i] == t[i - 1] && r[i + 1] == t[i]);
                let k = i - 1;
                assert(!chars_lt(t[k + 1].2, t[k].2));
            }
        }
    }
}

/// Law: with a year filter, every parsed entry's period label starts with that year
/// and a dash.
pub proof fn lemma_selected_entries_match_year(lines: Seq<Seq<char>>, y: i32)
    ensures
        forall|i: int|
            0 <= i < selected_entries(lines, Some(y)).len() ==> starts_with(
                #[trigger] selected_entries(lines, Some(y))[i].2,
                year_prefix(y as int),
            ),
    decreases lines.len(),
{
    if lines.len() > 0 {
        lemma_selected_entries_match_year(lines.drop_last(), y);
        let rest = selected_entries(lines.drop_last(), Some(y));
        let all = selected_entries(lines, Some(y));
        assert forall|i: int| 0 <= i < all.len() implies starts_with(
            #[trigger] all[i].2,
            year_prefix(y as int),
        ) by {
            if i < rest.len() {
                assert(all[i] == rest[i]);
            }
        }
    }
}

/// Law: sorting by label only reorders the entries: it keeps each entry as often as
/// it occurs.
pub proof fn lemma_sort_by_label_permutes(s: Seq<EntryView>)
    ensures
        sort_by_label(s).to_multiset() == s.to_multiset(),
    decreases s.len(),
{
    broadcast use vstd::seq_lib::group_to_multiset_ensures;

    if s.len() > 0 {
        lemma_sort_by_label_permutes(s.drop_last());
        let t = sort_by_label(s.drop_last());
        lemma_sort_by_label_sorted(s.drop_last());
        lemma_insert_pos_bounds(t, s.last().2);
        vstd::seq_lib::to_multiset_insert(t, insert_pos(t, s.last().2), s.last());
        assert(s.drop_last().push(s.last()) == s);
    } else {
        assert(sort_by_label(s) =~= s);
    }
}

} // verus!
