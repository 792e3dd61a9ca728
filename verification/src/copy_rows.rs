//! Rows of the staging tables in PostgreSQL `COPY` text format: one line per row,
//! fields separated by tabs, nulls as `\N`.

use vstd::prelude::*;

use crate::copy_text::{
    copy_field, copy_null, hex_bytes, lemma_escape_has_no_separators, lemma_escape_round_trip,
    spec_escape, spec_hex, spec_unescape,
};
use crate::decimal::{push_signed_decimal, signed_decimal};
use crate::text::{lemma_split_on_nonempty, push_str_chars, split_on, string_from_chars, string_views};

verus! {

/// An optional text field: `\N` for none, the escaped text otherwise.
pub open spec fn opt_field(v: Option<Seq<char>>) -> Seq<char> {
    match v {
        None => copy_null(),
        Some(s) => spec_escape(s),
    }
}

/// An optional integer field: `\N` for none, the decimal number otherwise.
pub open spec fn opt_int_field(v: Option<int>) -> Seq<char> {
    match v {
        None => copy_null(),
        Some(n) => spec_escape(signed_decimal(n)),
    }
}

/// Fields joined by tabs.
pub open spec fn tab_join(fields: Seq<Seq<char>>) -> Seq<char>
    decreases fields.len(),
{
    if fields.len() == 0 {
        Seq::empty()
    } else if fields.len() == 1 {
        fields[0]
    } else {
        tab_join(fields.drop_last()) + seq!['\t'] + fields.last()
    }
}

/// A COPY line: the fields joined by tabs, then a newline.
pub open spec fn copy_line(fields: Seq<Seq<char>>) -> Seq<char> {
    tab_join(fields) + seq!['\n']
}

/// Joins the fields of one row into its COPY line.
pub fn join_copy_line(fields: &Vec<String>) -> (r: String)
    ensures
        r@ == copy_line(string_views(fields@)),
{
    let ghost f = string_views(fields@);
    let mut out: Vec<char> = Vec::new();
    let mut i: usize = 0;
    while i < fields.len()
        invariant
            i <= fields@.len(),
            f == string_views(fields@),
            out@ == tab_join(f.take(i as int)),
        decreases fields@.len() - i,
    {
        if i > 0 {
            out.push('\t');
        }
        push_str_chars(&mut out, fields[i].as_str());
        proof {
            let t = f.take(i + 1);
            assert(t.drop_last() == f.take(i as int));
            assert(t.last() == fields@[i as int]@);
            if i == 0 {
                assert(t.len() == 1);
            }
        }
        i = i + 1;
    }
    assert(f.take(fields@.len() as int) == f);
    out.push('\n');
    string_from_chars(out.as_slice())
}

/// The decimal text of a number.
pub fn number_text(n: i64) -> (r: String)
    ensures
        r@ == signed_decimal(n as int),
{
    let mut ds: Vec<char> = Vec::new();
    push_signed_decimal(&mut ds, n);
    string_from_chars(ds.as_slice())
}

/// An optional integer field: `\N` for none, the decimal number otherwise.
pub fn int_field(value: Option<i64>) -> (r: String)
    ensures
        r@ == opt_int_field(
            match value {
                Some(n) => Some(n as int),
                None => None,
            },
        ),
{
    match value {
        None => copy_field(None),
        Some(n) => {
            let text = number_text(n);
            copy_field(Some(text.as_str()))
        },
    }
}

/// One row of the ply-analysis staging table.
#[derive(Debug, Clone)]
pub struct StagingPlyAnalysisRow {
    /// Game id.
    pub game_id: i64,
    /// Ply number.
    pub ply: i32,
    /// Evaluation before the move, in centipawns.
    pub eval_before: Option<i16>,
    /// Evaluation after the move, in centipawns.
    pub eval_after: Option<i16>,
    /// Best move in UCI notation.
    pub best_move: String,
    /// Centipawn loss.
    pub cp_loss: Option<i16>,
    /// Move class label.
    pub move_class: String,
    /// Search depth.
    pub eval_depth: Option<i16>,
    /// Evaluation backend label.
    pub eval_source: String,
}

/// An optional `i16` as an optional integer.
pub open spec fn opt_i16(v: Option<i16>) -> Option<int> {
    match v {
        Some(x) => Some(x as int),
        None => None,
    }
}

/// The COPY line of a ply-analysis row.
pub open spec fn spec_analysis_line(r: StagingPlyAnalysisRow) -> Seq<char> {
    copy_line(
        seq![
            signed_decimal(r.game_id as int),
            signed_decimal(r.ply as int),
            opt_int_field(opt_i16(r.eval_before)),
            opt_int_field(opt_i16(r.eval_after)),
            spec_escape(r.best_move@),
            opt_int_field(opt_i16(r.cp_loss)),
            spec_escape(r.move_class@),
            opt_int_field(opt_i16(r.eval_depth)),
            spec_escape(r.eval_source@),
        ],
    )
}

fn opt_i64(v: Option<i16>) -> (r: Option<i64>)
    ensures
        match r {
            Some(n) => opt_i16(v) == Some(n as int),
            None => opt_i16(v) is None,
        },
{
    match v {
        Some(x) => Some(x as i64),
        None => None,
    }
}

/// Writes the COPY line of a ply-analysis row.
pub fn analysis_copy_line(row: &StagingPlyAnalysisRow) -> (r: String)
    ensures
        r@ == spec_analysis_line(*row),
{
    let fields: Vec<String> = vec![
        number_text(row.game_id),
        number_text(row.ply as i64),
        int_field(opt_i64(row.eval_before)),
        int_field(opt_i64(row.eval_after)),
        copy_field(Some(row.best_move.as_str())),
        int_field(opt_i64(row.cp_loss)),
        copy_field(Some(row.move_class.as_str())),
        int_field(opt_i64(row.eval_depth)),
        copy_field(Some(row.eval_source.as_str())),
    ];
    assert(string_views(fields@) =~= seq![
        signed_decimal(row.game_id as int),
        signed_decimal(row.ply as int),
        opt_int_field(opt_i16(row.eval_before)),
        opt_int_field(opt_i16(row.eval_after)),
        spec_escape(row.best_move@),
        opt_int_field(opt_i16(row.cp_loss)),
        spec_escape(row.move_class@),
        opt_int_field(opt_i16(row.eval_depth)),
        spec_escape(row.eval_source@),
    ]);
    join_copy_line(&fields)
}

/// Lines joined one after another.
pub open spec fn concat_lines(lines: Seq<Seq<char>>) -> Seq<char>
    decreases lines.len(),
{
    if lines.len() == 0 {
        Seq::empty()
    } else {
        concat_lines(lines.drop_last()) + lines.last()
    }
}

/// The COPY payload of ply-analysis rows: their lines in order.
pub open spec fn spec_analysis_data(rows: Seq<StagingPlyAnalysisRow>) -> Seq<char> {
    concat_lines(Seq::new(rows.len(), |i: int| spec_analysis_line(rows[i])))
}

/// Writes the COPY payload of ply-analysis rows: their lines in order.
pub fn analysis_copy_data(rows: &[StagingPlyAnalysisRow]) -> (r: String)
    ensures
        r@ == spec_analysis_data(rows@),
{
    let ghost lines = Seq::new(rows@.len(), |i: int| spec_analysis_line(rows@[i]));
    let mut out: Vec<char> = Vec::new();
    let mut i: usize = 0;
    while i < rows.len()
        invariant
            i <= rows@.len(),
            lines == Seq::new(rows@.len(), |i: int| spec_analysis_line(rows@[i])),
            out@ == concat_lines(lines.take(i as int)),
        decreases rows@.len() - i,
    {
        let line = analysis_copy_line(&rows[i]);
        push_str_chars(&mut out, line.as_str());
        assert(lines.take(i + 1).drop_last() == lines.take(i as int));
        i = i + 1;
    }
    assert(lines.take(rows@.len() as int) == lines);
    string_from_chars(out.as_slice())
}

/// The COPY line of a staged position: batch sequence, ply, FEN and hash.
pub open spec fn spec_position_line(batch_seq: i32, ply: i64, fen: Seq<char>, hash: i64) -> Seq<char> {
    copy_line(
        seq![
            signed_decimal(batch_seq as int),
            signed_decimal(ply as int),
            spec_escape(fen),
            signed_decimal(hash as int),
        ],
    )
}

/// Writes the COPY line of a staged position.
pub fn position_copy_line(batch_seq: i32, ply: i64, fen: &str, hash: i64) -> (r: String)
    ensures
        r@ == spec_position_line(batch_seq, ply, fen@, hash),
{
    let fields: Vec<String> = vec![
        number_text(batch_seq as i64),
        number_text(ply),
        copy_field(Some(fen)),
        number_text(hash),
    ];
    assert(string_views(fields@) =~= seq![
        signed_decimal(batch_seq as int),
        signed_decimal(ply as int),
        spec_escape(fen@),
        signed_decimal(hash as int),
    ]);
    join_copy_line(&fields)
}

/// The COPY line of a staged ply: batch sequence, ply, UCI move and SAN move.
pub open spec fn spec_ply_line(batch_seq: i32, ply: i64, uci: Seq<char>, san: Seq<char>) -> Seq<char> {
    copy_line(
        seq![
            signed_decimal(batch_seq as int),
            signed_decimal(ply as int),
            spec_escape(uci),
            spec_escape(san),
        ],
    )
}

/// Writes the COPY line of a staged ply.
pub fn ply_copy_line(batch_seq: i32, ply: i64, uci: &str, san: &str) -> (r: String)
    ensures
        r@ == spec_ply_line(batch_seq, ply, uci@, san@),
{
    let fields: Vec<String> = vec![
        number_text(batch_seq as i64),
        number_text(ply),
        copy_field(Some(uci)),
        copy_field(Some(san)),
    ];
    assert(string_views(fields@) =~= seq![
        signed_decimal(batch_seq as int),
        signed_decimal(ply as int),
        spec_escape(uci@),
        spec_escape(san@),
    ]);
    join_copy_line(&fields)
}

/// A staged game row.
#[derive(Debug, Clone)]
pub struct StagingGameRow {
    /// Batch-local sequence number.
    pub batch_seq: i32,
    /// Optional full PGN text.
    pub pgn_text: Option<String>,
    /// SHA-256 of the source archive, if known.
    pub pgn_sha256: Option<Vec<u8>>,
    /// Byte offset in the source archive, if known.
    pub pgn_byte_offset: Option<i64>,
    /// White player.
    pub white: Option<String>,
    /// Black player.
    pub black: Option<String>,
    /// White rating.
    pub white_elo: Option<i32>,
    /// Black rating.
    pub black_elo: Option<i32>,
    /// Event name.
    pub event: Option<String>,
    /// Site.
    pub site: Option<String>,
    /// Round.
    pub round: Option<String>,
    /// Game date as `YYYY-MM-DD` text.
    pub game_date: Option<String>,
    /// Result code.
    pub result: String,
    /// ECO code.
    pub eco: Option<String>,
    /// Number of plies played.
    pub ply_count: i32,
}

/// An optional owned string as an optional sequence.
pub open spec fn opt_text(v: Option<String>) -> Option<Seq<char>> {
    match v {
        Some(s) => Some(s@),
        None => None,
    }
}

/// An optional `i32` as an optional integer.
pub open spec fn opt_i32(v: Option<i32>) -> Option<int> {
    match v {
        Some(x) => Some(x as int),
        None => None,
    }
}

/// Optional bytes as optional lower-case hexadecimal text.
pub open spec fn opt_hex(v: Option<Vec<u8>>) -> Option<Seq<char>> {
    match v {
        Some(b) => Some(spec_hex(b@)),
        None => None,
    }
}

/// An optional `i64` as an optional integer.
pub open spec fn opt_i64_int(v: Option<i64>) -> Option<int> {
    match v {
        Some(x) => Some(x as int),
        None => None,
    }
}

/// The COPY line of a staged game.
pub open spec fn spec_game_line(g: StagingGameRow) -> Seq<char> {
    copy_line(
        seq![
            signed_decimal(g.batch_seq as int),
            opt_field(opt_text(g.pgn_text)),
            opt_field(opt_hex(g.pgn_sha256)),
            opt_int_field(opt_i64_int(g.pgn_byte_offset)),
            opt_field(opt_text(g.white)),
            opt_field(opt_text(g.black)),
            opt_int_field(opt_i32(g.white_elo)),
            opt_int_field(opt_i32(g.black_elo)),
            opt_field(opt_text(g.event)),
            opt_field(opt_text(g.site)),
            opt_field(opt_text(g.round)),
            opt_field(opt_text(g.game_date)),
            spec_escape(g.result@),
            opt_field(opt_text(g.eco)),
            signed_decimal(g.ply_count as int),
        ],
    )
}

fn opt_str(v: &Option<String>) -> (r: Option<&str>)
    ensures
        match r {
            Some(s) => opt_text(*v) == Some(s@),
            None => opt_text(*v) is None,
        },
{
    match v {
        Some(s) => Some(s.as_str()),
        None => None,
    }
}

fn opt_i32_wide(v: Option<i32>) -> (r: Option<i64>)
    ensures
        match r {
            Some(n) => opt_i32(v) == Some(n as int),
            None => opt_i32(v) is None,
        },
{
    match v {
        Some(x) => Some(x as i64),
        None => None,
    }
}

/// Writes the COPY line of a staged game.
pub fn game_copy_line(g: &StagingGameRow) -> (r: String)
    ensures
        r@ == spec_game_line(*g),
{
    let sha: Option<String> = match &g.pgn_sha256 {
        Some(b) => Some(hex_bytes(b.as_slice())),
        None => None,
    };
    let sha_text: Option<&str> = match &sha {
        Some(h) => Some(h.as_str()),
        None => None,
    };
    let fields: Vec<String> = vec![
        number_text(g.batch_seq as i64),
        copy_field(opt_str(&g.pgn_text)),
        copy_field(sha_text),
        int_field(g.pgn_byte_offset),
        copy_field(opt_str(&g.white)),
        copy_field(opt_str(&g.black)),
        int_field(opt_i32_wide(g.white_elo)),
        int_field(opt_i32_wide(g.black_elo)),
        copy_field(opt_str(&g.event)),
        copy_field(opt_str(&g.site)),
        copy_field(opt_str(&g.round)),
        copy_field(opt_str(&g.game_date)),
        copy_field(Some(g.result.as_str())),
        copy_field(opt_str(&g.eco)),
        number_text(g.ply_count as i64),
    ];
    assert(string_views(fields@) =~= seq![
        signed_decimal(g.batch_seq as int),
        opt_field(opt_text(g.pgn_text)),
        opt_field(opt_hex(g.pgn_sha256)),
        opt_int_field(opt_i64_int(g.pgn_byte_offset)),
        opt_field(opt_text(g.white)),
        opt_field(opt_text(g.black)),
        opt_int_field(opt_i32(g.white_elo)),
        opt_int_field(opt_i32(g.black_elo)),
        opt_field(opt_text(g.event)),
        opt_field(opt_text(g.site)),
        opt_field(opt_text(g.round)),
        opt_field(opt_text(g.game_date)),
        spec_escape(g.result@),
        opt_field(opt_text(g.eco)),
        signed_decimal(g.ply_count as int),
    ]);
    join_copy_line(&fields)
}

/// The COPY payload of staged games: their lines in order.
pub open spec fn spec_games_data(rows: Seq<StagingGameRow>) -> Seq<char> {
    concat_lines(Seq::new(rows.len(), |i: int| spec_game_line(rows[i])))
}

/// Writes the COPY payload of staged games: their lines in order.
pub fn games_copy_data(rows: &[StagingGameRow]) -> (r: String)
    ensures
        r@ == spec_games_data(rows@),
{
    let ghost lines = Seq::new(rows@.len(), |i: int| spec_game_line(rows@[i]));
    let mut out: Vec<char> = Vec::new();
    let mut i: usize = 0;
    while i < rows.len()
        invariant
            i <= rows@.len(),
            lines == Seq::new(rows@.len(), |i: int| spec_game_line(rows@[i])),
            out@ == concat_lines(lines.take(i as int)),
        decreases rows@.len() - i,
    {
        let line = game_copy_line(&rows[i]);
        push_str_chars(&mut out, line.as_str());
        assert(lines.take(i + 1).drop_last() == lines.take(i as int));
        i = i + 1;
    }
    assert(lines.take(rows@.len() as int) == lines);
    string_from_chars(out.as_slice())
}

proof fn lemma_split_on_append_piece(a: Seq<char>, t: Seq<char>, sep: char)
    requires
        forall|i: int| 0 <= i < t.len() ==> #[trigger] t[i] != sep,
    ensures
        split_on(a + seq![sep] + t, sep) == split_on(a, sep).push(t),
    decreases t.len(),
{
    let s = a + seq![sep] + t;
    lemma_split_on_nonempty(a, sep);
    if t.len() == 0 {
        assert(s == a.push(sep));
        assert(s.drop_last() == a);
        assert(t =~= Seq::<char>::empty());
    } else {
        lemma_split_on_append_piece(a, t.drop_last(), sep);
        assert(s.drop_last() == a + seq![sep] + t.drop_last());
        assert(s.last() == t.last());
        assert(t.last() != sep);
        let p = split_on(a, sep).push(t.drop_last());
        assert(t.drop_last().push(t.last()) =~= t);
        assert(p.update(p.len() - 1, p.last().push(t.last())) =~= split_on(a, sep).push(t));
    }
}

proof fn lemma_split_on_plain(t: Seq<char>, sep: char)
    requires
        forall|i: int| 0 <= i < t.len() ==> #[trigger] t[i] != sep,
    ensures
        split_on(t, sep) == seq![t],
    decreases t.len(),
{
    if t.len() > 0 {
        lemma_split_on_plain(t.drop_last(), sep);
        assert(t.drop_last().push(t.last()) =~= t);
        assert(seq![t.drop_last()].update(0, t.drop_last().push(t.last())) =~= seq![t]);
    } else {
        assert(t =~= Seq::<char>::empty());
    }
}

/// Law: splitting tab-joined fields at the tabs gives the fields back, provided
/// no field holds a tab.
pub proof fn lemma_tab_join_splits(fields: Seq<Seq<char>>)
    requires
        fields.len() >= 1,
        forall|k: int, i: int|
            0 <= k < fields.len() && 0 <= i < fields[k].len() ==> #[trigger] fields[k][i] != '\t',
    ensures
        split_on(tab_join(fields), '\t') == fields,
    decreases fields.len(),
{
    if fields.len() == 1 {
        let f = fields[0];
        assert forall|i: int| 0 <= i < f.len() implies #[trigger] f[i] != '\t' by {
            assert(fields[0][i] != '\t');
        }
        lemma_split_on_plain(f, '\t');
        assert(seq![f] =~= fields);
    } else {
        let rest = fields.drop_last();
        assert forall|k: int, i: int|
            0 <= k < rest.len() && 0 <= i < rest[k].len() implies #[trigger] rest[k][i] != '\t' by {
            assert(rest[k] == fields[k]);
        }
        lemma_tab_join_splits(rest);
        let t = fields.last();
        assert forall|i: int| 0 <= i < t.len() implies #[trigger] t[i] != '\t' by {
            assert(fields[fields.len() - 1][i] != '\t');
        }
        lemma_split_on_append_piece(tab_join(rest), t, '\t');
        assert(rest.push(t) =~= fields);
    }
}

/// Law: a COPY line of escaped text values reads back as those values. The line
/// ends in its only newline, and splitting the rest at the tabs and unescaping
/// each piece gives the values, in order.
pub proof fn lemma_copy_line_reads_back(values: Seq<Seq<char>>)
    requires
        values.len() >= 1,
    ensures
        ({
            let fields = Seq::new(values.len(), |k: int| spec_escape(values[k]));
            let line = copy_line(fields);
            let pieces = split_on(line.drop_last(), '\t');
            &&& line.last() == '\n'
            &&& pieces.len() == values.len()
            &&& forall|k: int| 0 <= k < values.len() ==> spec_unescape(#[trigger] pieces[k]) == values[k]
        }),
{
    let fields = Seq::new(values.len(), |k: int| spec_escape(values[k]));
    assert forall|k: int, i: int| 0 <= k < fields.len() && 0 <= i < fields[k].len() implies #[trigger] fields[k][i]
        != '\t' by {
        lemma_escape_has_no_separators(values[k]);
        assert(spec_escape(values[k])[i] != '\t');
    }
    lemma_tab_join_splits(fields);
    let line = copy_line(fields);
    assert(line.drop_last() == tab_join(fields));
    assert forall|k: int| 0 <= k < values.len() implies spec_unescape(
        #[trigger] split_on(line.drop_last(), '\t')[k],
    ) == values[k] by {
        lemma_escape_round_trip(values[k]);
    }
}

} // verus!
