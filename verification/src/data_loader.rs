//! Loading: which files are read, which positions are taken from them, and
//! the removal of duplicates that follows every stage.
use crate::argument::Mode;
use crate::number::{decimal, i8_of, parse_i8, push_decimal, IntError};
use crate::record::{
    record_before, sort_records, text_before, views, Position, PositionView, Record, RecordView,
};
use crate::sorting::{collapse, stable_sort};
use crate::text::{
    chars_of, contains, contains_text, ends_with, extend, has_suffix, rows, split, split_on,
    string_of, texts,
};
use vstd::prelude::*;

verus! {

/// `s` sorted by position, then every run of equal neighbours reduced to one
/// record.
pub open spec fn deduplicated(s: Seq<RecordView>) -> Seq<RecordView> {
    collapse(stable_sort(s, record_before()))
}

/// The line that reports how many records are left.
pub open spec fn boards_summary(n: nat) -> Seq<char> {
    "board: "@ + decimal(n) + " boards\n"@
}

/// The records of `sorted` with every run of equal neighbours reduced to its
/// first record.
fn collapse_records(sorted: &Vec<Record>) -> (out: Vec<Record>)
    ensures
        views(out@) == collapse(views(sorted@)),
{
    let mut out: Vec<Record> = Vec::new();
    let mut i: usize = 0;
    while i < sorted.len()
        invariant
            i <= sorted.len(),
            views(out@) == collapse(views(sorted@).take(i as int)),
        decreases sorted.len() - i,
    {
        let item = &sorted[i];
        proof {
            assert(views(sorted@).take(i + 1).drop_last() =~= views(sorted@).take(i as int));
            assert(views(sorted@).take(i + 1).last() == item@);
            if out.len() > 0 {
                assert(views(out@).last() == out@[out.len() - 1]@);
            }
        }
        if out.len() == 0 || !out[out.len() - 1].same(item) {
            let ghost before = out@;
            out.push(item.copy());
            proof {
                assert(views(out@) =~= views(before).push(item@));
            }
        }
        i += 1;
    }
    proof {
        assert(views(sorted@).take(sorted.len() as int) =~= views(sorted@));
    }
    out
}

/// Removes duplicates from `boards`: sorts them by position, then drops every
/// record that equals the one before it field for field. Returns the line
/// that reports the number of records left.
pub fn dedupboards(boards: &mut Vec<Record>) -> (summary: String)
    ensures
        views(final(boards)@) == deduplicated(views(old(boards)@)),
        views(final(boards)@).to_set() == views(old(boards)@).to_set(),
        final(boards)@.len() <= old(boards)@.len(),
        summary@ == boards_summary(final(boards)@.len() as nat),
{
    sort_records(boards);
    let kept = collapse_records(boards);
    proof {
        lemma_dedup_keeps_set(views(old(boards)@));
        assert(views(kept@).len() == kept@.len());
        assert(views(old(boards)@).len() == old(boards)@.len());
    }
    *boards = kept;
    let mut line: Vec<char> = chars_of("board: ");
    push_decimal(&mut line, boards.len() as u64);
    let tail = chars_of(" boards\n");
    extend(&mut line, &tail);
    string_of(&line)
}

/// Deduplication changes how often a record occurs, never which records
/// occur, and it never lengthens the list.
pub proof fn lemma_dedup_keeps_set(s: Seq<RecordView>)
    ensures
        deduplicated(s).to_set() == s.to_set(),
        deduplicated(s).len() <= s.len(),
{
    let sorted = stable_sort(s, record_before());
    crate::sorting::lemma_sort_multiset(s, record_before());
    crate::sorting::lemma_multiset_set(sorted, s);
    crate::sorting::lemma_collapse_set(sorted);
}

/// Deduplicating what was deduplicated changes nothing.
pub proof fn lemma_dedup_idempotent(s: Seq<RecordView>)
    ensures
        deduplicated(deduplicated(s)) == deduplicated(s),
{
    let sorted = stable_sort(s, record_before());
    let once = collapse(sorted);
    crate::record::lemma_record_ranking();
    crate::sorting::lemma_sort_sorted(s, record_before());
    crate::sorting::lemma_collapse_sorted(sorted, record_before());
    crate::sorting::lemma_sort_of_sorted(once, record_before());
    crate::sorting::lemma_collapse_neighbours(sorted);
    crate::sorting::lemma_collapse_of_collapsed(once);
}

/// The order in which the records come does not change which records are
/// left: two lists that hold the same records, each as often, deduplicate to
/// the same set.
pub proof fn lemma_dedup_order_invariant(a: Seq<RecordView>, b: Seq<RecordView>)
    requires
        a.to_multiset() == b.to_multiset(),
    ensures
        deduplicated(a).to_set() == deduplicated(b).to_set(),
{
    lemma_dedup_keeps_set(a);
    lemma_dedup_keeps_set(b);
    crate::sorting::lemma_multiset_set(a, b);
}

/// Every position of `s` carries one label: two records of one position
/// agree field for field.
pub open spec fn one_label(s: Seq<RecordView>) -> bool {
    forall|i: int, j: int|
        0 <= i < s.len() && 0 <= j < s.len() && (#[trigger] s[i]).position == (
        #[trigger] s[j]).position ==> s[i] == s[j]
}

/// Where every position carries one label, deduplication leaves every
/// position once: the records stand in strictly ascending order of their
/// positions, so no position stands in two of them.
pub proof fn lemma_dedup_one_label(s: Seq<RecordView>)
    requires
        one_label(s),
    ensures
        crate::sorting::is_ascending(deduplicated(s), record_before()),
        forall|i: int, j: int|
            0 <= i < j < deduplicated(s).len() ==> (#[trigger] deduplicated(s)[i]).position != (
            #[trigger] deduplicated(s)[j]).position,
        deduplicated(s).no_duplicates(),
{
    let sorted = stable_sort(s, record_before());
    let kept = deduplicated(s);
    crate::record::lemma_record_ranking();
    crate::sorting::lemma_sort_sorted(s, record_before());
    crate::sorting::lemma_collapse_sorted(sorted, record_before());
    crate::sorting::lemma_collapse_neighbours(sorted);
    lemma_dedup_keeps_set(s);
    assert forall|i: int, j: int| 0 <= i && j == i + 1 && j < kept.len() implies record_before()(
        kept[i],
        kept[j],
    ) by {
        assert(kept[i] != kept[j]);
        assert(kept.to_set().contains(kept[i]));
        assert(kept.to_set().contains(kept[j]));
        assert(s.contains(kept[i]));
        assert(s.contains(kept[j]));
        let a = choose|a: int| 0 <= a < s.len() && s[a] == kept[i];
        let b = choose|b: int| 0 <= b < s.len() && s[b] == kept[j];
        assert(s[a].position != s[b].position);
        crate::record::lemma_position_order(
            kept[i].position,
            kept[j].position,
            kept[i].position,
        );
        assert(!record_before()(kept[j], kept[i]));
    }
    crate::sorting::lemma_ascending(kept, record_before());
    assert forall|i: int, j: int| 0 <= i < j < kept.len() implies (#[trigger] kept[i]).position
        != (#[trigger] kept[j]).position by {
        assert(record_before()(kept[i], kept[j]));
        crate::record::lemma_position_order(
            kept[i].position,
            kept[j].position,
            kept[i].position,
        );
    }
}

/// Records that all differ are all left: deduplication only puts them in
/// order.
pub proof fn lemma_dedup_of_distinct(s: Seq<RecordView>)
    requires
        s.no_duplicates(),
    ensures
        deduplicated(s) == stable_sort(s, record_before()),
        deduplicated(s).len() == s.len(),
        deduplicated(s).to_multiset() == s.to_multiset(),
{
    let sorted = stable_sort(s, record_before());
    crate::sorting::lemma_sort_multiset(s, record_before());
    s.lemma_multiset_has_no_duplicates();
    sorted.lemma_multiset_has_no_duplicates_conv();
    assert(crate::sorting::no_equal_neighbours(sorted));
    crate::sorting::lemma_collapse_of_collapsed(sorted);
}

/// Copies of one record collapse to that record.
pub proof fn lemma_dedup_of_copies(s: Seq<RecordView>, r: RecordView)
    requires
        s.len() > 0,
        forall|i: int| 0 <= i < s.len() ==> #[trigger] s[i] == r,
    ensures
        deduplicated(s) == seq![r],
{
    crate::record::lemma_record_ranking();
    assert(crate::sorting::is_sorted(s, record_before())) by {
        assert forall|i: int, j: int| 0 <= i < j < s.len() implies !record_before()(
            s[j],
            s[i],
        ) by {
            crate::record::lemma_position_order(r.position, r.position, r.position);
        }
    }
    crate::sorting::lemma_sort_of_sorted(s, record_before());
    crate::sorting::lemma_collapse_of_copies(s, r);
}

/// The order of texts, as a relation.
pub open spec fn text_order() -> spec_fn(Seq<char>, Seq<char>) -> bool {
    |a: Seq<char>, b: Seq<char>| text_before(a, b)
}

/// The names that are taken as input. A game record is a file whose name
/// ends in `.txt`. A snapshot is a file whose name holds `.txt`, so that a
/// compressed snapshot, whose name goes on behind it, is taken too.
pub open spec fn is_input_name(md: Mode) -> spec_fn(Seq<char>) -> bool {
    |name: Seq<char>|
        match md {
            Mode::Kifu => ends_with(name, ".txt"@),
            Mode::Mate => contains_text(name, ".txt"@),
        }
}

/// Sorts `names` with the slice's `sort`, which puts them in ascending order
/// of `String`: the order of texts. Equal names keep their order.
#[verifier::external_body]
fn sort_names(names: &mut Vec<String>)
    ensures
        texts(final(names)@) == stable_sort(texts(old(names)@), text_order()),
{
    names.sort();
}

/// The input files among the entries `names` of a directory, for a run in
/// the mode `md`: the names that are taken as input, in ascending order.
pub fn findfiles(names: &Vec<String>, md: Mode) -> (files: Vec<String>)
    ensures
        texts(files@) == stable_sort(texts(names@).filter(is_input_name(md)), text_order()),
{
    let suffix = chars_of(".txt");
    let mut files: Vec<String> = Vec::new();
    let mut i: usize = 0;
    proof {
        reveal(Seq::filter);
        assert(texts(names@).take(0) =~= Seq::<Seq<char>>::empty());
        assert(texts(files@) =~= Seq::<Seq<char>>::empty());
    }
    while i < names.len()
        invariant
            i <= names.len(),
            suffix@ == ".txt"@,
            texts(files@) == texts(names@).take(i as int).filter(is_input_name(md)),
        decreases names.len() - i,
    {
        let name = chars_of(names[i].as_str());
        proof {
            reveal(Seq::filter);
            assert(texts(names@).take(i + 1).drop_last() =~= texts(names@).take(i as int));
            assert(texts(names@).take(i + 1).last() == names@[i as int]@);
        }
        let taken = match md {
            Mode::Kifu => has_suffix(&name, &suffix),
            Mode::Mate => contains(&name, &suffix),
        };
        if taken {
            let ghost before = files@;
            files.push(names[i].clone());
            proof {
                assert(texts(files@) =~= texts(before).push(names@[i as int]@));
            }
        }
        i += 1;
    }
    proof {
        assert(texts(names@).take(names.len() as int) =~= texts(names@));
    }
    sort_names(&mut files);
    files
}

/// The path of the file `name` in the directory `dir`.
pub fn kifu_path(dir: &str, name: &str) -> (path: String)
    ensures
        path@ == dir@ + "/"@ + name@,
{
    let mut out = chars_of(dir);
    let slash = chars_of("/");
    extend(&mut out, &slash);
    let tail = chars_of(name);
    extend(&mut out, &tail);
    string_of(&out)
}

/// What the board collaborator reports of one position: the position with
/// its distance to the end of the game, the stones of each side whose owner
/// is settled, and the stone count that scores the position.
pub struct Board {
    pub position: Position,
    pub fixed_black: i8,
    pub fixed_white: i8,
    pub count: i8,
}

/// The mathematical value of a `Board`.
pub ghost struct BoardView {
    pub position: PositionView,
    pub fixed_black: i8,
    pub fixed_white: i8,
    pub count: i8,
}

impl View for Board {
    type V = BoardView;

    open spec fn view(&self) -> BoardView {
        BoardView {
            position: self.position@,
            fixed_black: self.fixed_black,
            fixed_white: self.fixed_white,
            count: self.count,
        }
    }
}

impl Board {
    /// The report of `position` with its settled stones and its stone count.
    pub fn new(position: Position, fixed_black: i8, fixed_white: i8, count: i8) -> (r: Board)
        ensures
            r@ == (BoardView { position: position@, fixed_black, fixed_white, count }),
    {
        Board { position, fixed_black, fixed_white, count }
    }
}

/// The values of the boards of `s`.
pub open spec fn board_views(s: Seq<Board>) -> Seq<BoardView> {
    s.map_values(|b: Board| b@)
}

/// The record that a game position gives: it is scored by its stone count.
pub open spec fn scored_by_count(b: BoardView) -> RecordView {
    RecordView {
        position: b.position,
        fixed_black: b.fixed_black,
        fixed_white: b.fixed_white,
        score: b.count,
    }
}

/// The boards that are exactly `n` plies before the end of the game.
pub open spec fn board_at_depth(n: u32) -> spec_fn(BoardView) -> bool {
    |b: BoardView| b.position.plies_left == n
}

/// The records of the positions visited in recorded games that are exactly
/// `mate` plies before the end of the game, in the order in which they were
/// visited.
pub fn loadkifu_for_mate(visited: &Vec<Board>, mate: u32) -> (boards: Vec<Record>)
    ensures
        views(boards@) == board_views(visited@).filter(board_at_depth(mate)).map_values(
            |b: BoardView| scored_by_count(b),
        ),
{
    let mut boards: Vec<Record> = Vec::new();
    let mut i: usize = 0;
    let ghost all = board_views(visited@);
    proof {
        reveal(Seq::filter);
        assert(views(boards@) =~= all.take(0).filter(board_at_depth(mate)).map_values(
            |b: BoardView| scored_by_count(b),
        ));
    }
    while i < visited.len()
        invariant
            i <= visited.len(),
            all == board_views(visited@),
            views(boards@) == all.take(i as int).filter(board_at_depth(mate)).map_values(
                |b: BoardView| scored_by_count(b),
            ),
        decreases visited.len() - i,
    {
        let board = &visited[i];
        proof {
            reveal(Seq::filter);
            assert(all.take(i + 1).drop_last() =~= all.take(i as int));
            assert(all.take(i + 1).last() == board@);
        }
        if board.position.is_last_n(mate) {
            let ghost before = boards@;
            let ghost kept = all.take(i as int).filter(board_at_depth(mate));
            boards.push(
                Record::new(
                    board.position.copy(),
                    board.fixed_black,
                    board.fixed_white,
                    board.count,
                ),
            );
            proof {
                assert(views(boards@) =~= views(before).push(scored_by_count(board@)));
                assert(kept.push(board@).map_values(|b: BoardView| scored_by_count(b))
                    =~= kept.map_values(|b: BoardView| scored_by_count(b)).push(
                    scored_by_count(board@),
                ));
            }
        }
        i += 1;
    }
    proof {
        assert(all.take(visited.len() as int) =~= all);
    }
    boards
}

/// A snapshot line that holds no entry: one of fewer than 11 characters, or
/// one that begins with `#`.
pub open spec fn is_comment(line: Seq<char>) -> bool {
    line.len() < 11 || line[0] == '#'
}

/// The first two fields of a snapshot line `<position>,<score>`.
pub struct Fields {
    /// What stands before the first comma.
    pub position: String,
    /// What stands between the first comma and the second, or the end of the
    /// line; empty where the line has no comma.
    pub score: String,
}

/// The score field of a line whose fields are `parts`.
pub open spec fn score_field(parts: Seq<Seq<char>>) -> Seq<char> {
    if parts.len() >= 2 {
        parts[1]
    } else {
        Seq::<char>::empty()
    }
}

/// Takes a snapshot line apart. A comment gives `None`; any other line gives
/// its position field and its score field.
pub fn snapshot_fields(line: &str) -> (r: Option<Fields>)
    ensures
        r is None == is_comment(line@),
        r matches Some(f) ==> {
            &&& f.position@ == split_on(line@, ',')[0]
            &&& f.score@ == score_field(split_on(line@, ','))
        },
{
    let chars = chars_of(line);
    if chars.len() < 11 || chars[0] == '#' {
        return None;
    }
    let parts = split(&chars, ',');
    proof {
        crate::text::lemma_split_nonempty(chars@, ',');
        assert(rows(parts@)[0] == parts@[0]@);
        if parts.len() >= 2 {
            assert(rows(parts@)[1] == parts@[1]@);
        }
    }
    let position = string_of(&parts[0]);
    let score = if parts.len() >= 2 {
        string_of(&parts[1])
    } else {
        String::new()
    };
    Some(Fields { position, score })
}

/// A snapshot entry after the board collaborator has read its position
/// field: the report of the position, or the collaborator's words on why the
/// field is no position, and the score field as it stands in the line.
pub struct Entry {
    pub board: Result<Board, String>,
    pub score: String,
}

/// The mathematical value of an `Entry`.
pub ghost struct EntryView {
    pub board: Result<BoardView, Seq<char>>,
    pub score: Seq<char>,
}

impl View for Entry {
    type V = EntryView;

    open spec fn view(&self) -> EntryView {
        EntryView {
            board: match self.board {
                Ok(b) => Ok(b@),
                Err(e) => Err(e@),
            },
            score: self.score@,
        }
    }
}

/// The values of the entries of `s`.
pub open spec fn entry_views(s: Seq<Entry>) -> Seq<EntryView> {
    s.map_values(|e: Entry| e@)
}

/// What one snapshot entry contributes.
pub ghost enum Outcome {
    /// The position is not at the depth asked for.
    Skip,
    /// The entry gives this record.
    Keep(RecordView),
    /// The entry is malformed, with these words.
    Fail(Seq<char>),
}

/// The words that report a malformed score field.
pub open spec fn score_failure(e: IntError) -> Seq<char> {
    "error: parse score : "@ + e.text()
}

/// What the entry `e` contributes at depth `mate`. Both fields are read
/// strictly: a field that is no position fails with the collaborator's
/// words, and a score field that writes no 8-bit signed integer fails too.
/// A well-formed entry is skipped where its position is at another depth,
/// and gives a record labelled with its score otherwise.
pub open spec fn entry_outcome(e: EntryView, mate: u32) -> Outcome {
    match e.board {
        Err(words) => Outcome::Fail(words),
        Ok(b) => match i8_of(e.score) {
            Err(kind) => Outcome::Fail(score_failure(kind)),
            Ok(n) => if b.position.plies_left != mate {
                Outcome::Skip
            } else {
                Outcome::Keep(
                    RecordView {
                        position: b.position,
                        fixed_black: b.fixed_black,
                        fixed_white: b.fixed_white,
                        score: n as i8,
                    },
                )
            },
        },
    }
}

/// The records that the entries give at depth `mate`, in their order, or the
/// words of the first entry that is malformed.
pub open spec fn snapshot_records(entries: Seq<EntryView>, mate: u32) -> Result<
    Seq<RecordView>,
    Seq<char>,
>
    decreases entries.len(),
{
    if entries.len() == 0 {
        Ok(Seq::<RecordView>::empty())
    } else {
        match snapshot_records(entries.drop_last(), mate) {
            Err(words) => Err(words),
            Ok(front) => match entry_outcome(entries.last(), mate) {
                Outcome::Skip => Ok(front),
                Outcome::Keep(r) => Ok(front.push(r)),
                Outcome::Fail(words) => Err(words),
            },
        }
    }
}

/// Reads the entries of a snapshot file: returns the records of the
/// positions exactly `mate` plies before the end of the game, or the words
/// of the first malformed entry.
pub fn read_mate_file(entries: &Vec<Entry>, mate: u32) -> (r: Result<Vec<Record>, String>)
    ensures
        match r {
            Ok(boards) => snapshot_records(entry_views(entries@), mate) == Ok::<
                Seq<RecordView>,
                Seq<char>,
            >(views(boards@)),
            Err(words) => snapshot_records(entry_views(entries@), mate) == Err::<
                Seq<RecordView>,
                Seq<char>,
            >(words@),
        },
{
    let mut boards: Vec<Record> = Vec::new();
    let ghost all = entry_views(entries@);
    let mut i: usize = 0;
    proof {
        assert(views(boards@) =~= Seq::<RecordView>::empty());
    }
    while i < entries.len()
        invariant
            i <= entries.len(),
            all == entry_views(entries@),
            snapshot_records(all.take(i as int), mate) == Ok::<Seq<RecordView>, Seq<char>>(
                views(boards@),
            ),
        decreases entries.len() - i,
    {
        let entry = &entries[i];
        proof {
            assert(all.take(i + 1).drop_last() =~= all.take(i as int));
            assert(all.take(i + 1).last() == entry@);
            lemma_first_failure_stays(all, mate, i + 1, entries.len() as int);
            assert(all.take(entries.len() as int) =~= all);
        }
        match &entry.board {
            Err(words) => {
                return Err(words.clone());
            },
            Ok(board) => {
                let field = chars_of(entry.score.as_str());
                match parse_i8(&field) {
                    Err(kind) => {
                        let mut words = chars_of("error: parse score : ");
                        let reason = chars_of(kind.message().as_str());
                        extend(&mut words, &reason);
                        return Err(string_of(&words));
                    },
                    Ok(score) => {
                        if board.position.is_last_n(mate) {
                            let ghost before = boards@;
                            let record = Record::new(
                                board.position.copy(),
                                board.fixed_black,
                                board.fixed_white,
                                score,
                            );
                            boards.push(record);
                            proof {
                                assert(views(boards@) =~= views(before).push(record@));
                            }
                        }
                    },
                }
            },
        }
        i += 1;
    }
    proof {
        assert(all.take(entries.len() as int) =~= all);
    }
    Ok(boards)
}

/// Once the entries up to `i` have failed, more entries change nothing.
pub proof fn lemma_first_failure_stays(all: Seq<EntryView>, mate: u32, i: int, k: int)
    requires
        0 <= i <= k <= all.len(),
    ensures
        snapshot_records(all.take(i), mate) is Err ==> snapshot_records(all.take(k), mate)
            == snapshot_records(all.take(i), mate),
    decreases k - i,
{
    if i < k {
        lemma_first_failure_stays(all, mate, i, k - 1);
        assert(all.take(k).drop_last() =~= all.take(k - 1));
    }
}

/// How the bytes of a snapshot file are to be read.
#[derive(Clone, Copy, Debug, PartialEq, Eq, Structural)]
pub enum Source {
    /// The file holds the lines as they are.
    Plain,
    /// The file holds the lines as one compressed stream.
    Compressed,
}

/// The words that report a snapshot file that is not there.
pub open spec fn missing_file(path: Seq<char>) -> Seq<char> {
    path + " does NOT exist!"@
}

/// Decides how the snapshot file `path` is to be read, given whether it
/// exists. A file that is not there is an error; a name that ends in `.zst`
/// or `.zstd` is a compressed stream; any other file is read as it is.
pub fn load_mates(path: &str, exists: bool) -> (r: Result<Source, String>)
    ensures
        match r {
            Err(words) => !exists && words@ == missing_file(path@),
            Ok(Source::Compressed) => exists && (ends_with(path@, ".zst"@) || ends_with(
                path@,
                ".zstd"@,
            )),
            Ok(Source::Plain) => exists && !ends_with(path@, ".zst"@) && !ends_with(
                path@,
                ".zstd"@,
            ),
        },
{
    let name = chars_of(path);
    if !exists {
        let mut words = name;
        let tail = chars_of(" does NOT exist!");
        extend(&mut words, &tail);
        return Err(string_of(&words));
    }
    let short = chars_of(".zst");
    let long = chars_of(".zstd");
    if has_suffix(&name, &short) || has_suffix(&name, &long) {
        Ok(Source::Compressed)
    } else {
        Ok(Source::Plain)
    }
}

} // verus!
