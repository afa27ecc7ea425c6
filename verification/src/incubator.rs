//! The run: the stages that every input group goes through, what each stage
//! hands to the next, and what is written at the end.
use crate::argument::{Arg, Mode};
use crate::data_loader::{boards_summary, dedupboards, deduplicated};
use crate::number::{
    decimal, is_digit, push_decimal, push_signed_decimal, signed_decimal,
};
use crate::record::{views, Position, PositionView, Record, RecordView};
use crate::text::{
    chars_of, ends_with, extend, has_suffix, replace, replaced, string_of, texts,
};
use vstd::std_specs::convert::FromSpecImpl;
use vstd::prelude::*;

verus! {

/// One member of the symmetry orbit of a position, as the board
/// collaborator gives it: the transformed position and the settled stones
/// transformed with it.
pub struct Member {
    pub position: Position,
    pub fixed_black: i8,
    pub fixed_white: i8,
}

/// The mathematical value of a `Member`.
pub ghost struct MemberView {
    pub position: PositionView,
    pub fixed_black: i8,
    pub fixed_white: i8,
}

impl View for Member {
    type V = MemberView;

    open spec fn view(&self) -> MemberView {
        MemberView {
            position: self.position@,
            fixed_black: self.fixed_black,
            fixed_white: self.fixed_white,
        }
    }
}

/// The values of the members of `s`.
pub open spec fn member_views(s: Seq<Member>) -> Seq<MemberView> {
    s.map_values(|m: Member| m@)
}

/// The record of an orbit member: the score does not change under a
/// symmetry of the board.
pub open spec fn member_record(m: MemberView, score: i8) -> RecordView {
    RecordView {
        position: m.position,
        fixed_black: m.fixed_black,
        fixed_white: m.fixed_white,
        score,
    }
}

/// The records of an orbit for a record of score `score`: one for every
/// member, in their order.
pub open spec fn orbit_records(orbit: Seq<MemberView>, score: i8) -> Seq<RecordView> {
    orbit.map_values(|m: MemberView| member_record(m, score))
}

/// Fans a record of score `score` out to its orbit: one record for every
/// member, each with that score.
pub fn augment(score: i8, orbit: &Vec<Member>) -> (r: Vec<Record>)
    ensures
        views(r@) == orbit_records(member_views(orbit@), score),
        r@.len() == orbit@.len(),
        forall|i: int| 0 <= i < r@.len() ==> (#[trigger] r@[i])@.score == score,
{
    let mut out: Vec<Record> = Vec::new();
    let ghost all = member_views(orbit@);
    let mut i: usize = 0;
    while i < orbit.len()
        invariant
            i <= orbit.len(),
            all == member_views(orbit@),
            out@.len() == i,
            views(out@) == orbit_records(all.take(i as int), score),
            forall|k: int| 0 <= k < out@.len() ==> (#[trigger] out@[k])@.score == score,
        decreases orbit.len() - i,
    {
        let member = &orbit[i];
        let ghost before = out@;
        let record = Record::new(
            member.position.copy(),
            member.fixed_black,
            member.fixed_white,
            score,
        );
        out.push(record);
        proof {
            assert(views(out@) =~= views(before).push(record@));
            assert(all.take(i + 1) =~= all.take(i as int).push(member@));
            assert(orbit_records(all.take(i + 1), score) =~= orbit_records(
                all.take(i as int),
                score,
            ).push(member_record(member@, score)));
        }
        i += 1;
    }
    proof {
        assert(all.take(orbit.len() as int) =~= all);
    }
    out
}

/// What is left of an orbit after deduplication. Every record left has the
/// score that was fanned out. An orbit whose members all differ, as that of
/// a position without symmetry of its own, leaves as many records as it has
/// members. An orbit whose members are all the same, as that of a position
/// that every symmetry maps to itself, leaves one record.
pub proof fn lemma_orbit_deduplicated(orbit: Seq<MemberView>, score: i8)
    ensures
        forall|i: int|
            0 <= i < deduplicated(orbit_records(orbit, score)).len() ==> (
            #[trigger] deduplicated(orbit_records(orbit, score))[i]).score == score,
        orbit.no_duplicates() ==> deduplicated(orbit_records(orbit, score)).len() == orbit.len(),
        orbit.len() > 0 && (forall|i: int| 0 <= i < orbit.len() ==> #[trigger] orbit[i] == orbit.first())
            ==> deduplicated(orbit_records(orbit, score)) == seq![
            member_record(orbit.first(), score),
        ],
{
    let records = orbit_records(orbit, score);
    let kept = deduplicated(records);
    crate::data_loader::lemma_dedup_keeps_set(records);
    assert forall|i: int| 0 <= i < kept.len() implies (#[trigger] kept[i]).score == score by {
        assert(kept.to_set().contains(kept[i]));
        assert(records.contains(kept[i]));
    }
    if orbit.no_duplicates() {
        assert(records.no_duplicates()) by {
            assert forall|i: int, j: int|
                0 <= i < records.len() && 0 <= j < records.len() && i != j implies records[i]
                != records[j] by {
                assert(orbit[i] != orbit[j]);
                if records[i] == records[j] {
                    assert(orbit[i].position == records[i].position);
                    assert(orbit[j].position == records[j].position);
                    assert(orbit[i] =~= orbit[j]);
                }
            }
        }
        crate::data_loader::lemma_dedup_of_distinct(records);
    }
    if orbit.len() > 0 && (forall|i: int| 0 <= i < orbit.len() ==> #[trigger] orbit[i] == orbit.first()) {
        crate::data_loader::lemma_dedup_of_copies(records, member_record(orbit.first(), score));
    }
}

/// The corpus line of a record: the canonical text of the position, a
/// comma, the score, and a line feed.
pub open spec fn corpus_line(r: RecordView) -> Seq<char> {
    r.position.code + ","@ + signed_decimal(r.score as int) + "\n"@
}

/// The corpus lines of the records of `s` that are exactly `depth` plies
/// before the end of the game, in their order.
pub open spec fn corpus_lines(s: Seq<RecordView>, depth: u32) -> Seq<char>
    decreases s.len(),
{
    if s.len() == 0 {
        Seq::<char>::empty()
    } else if s.last().position.plies_left == depth {
        corpus_lines(s.drop_last(), depth) + corpus_line(s.last())
    } else {
        corpus_lines(s.drop_last(), depth)
    }
}

/// What is appended to the corpus for the group of the directory `dir`: a
/// header that names the directory, then the lines of the group.
pub open spec fn corpus_text(dir: Seq<char>, s: Seq<RecordView>, depth: u32) -> Seq<char> {
    "# "@ + dir + "\n"@ + corpus_lines(s, depth)
}

/// The records that are exactly `depth` plies before the end of the game.
pub open spec fn record_at_depth(depth: u32) -> spec_fn(RecordView) -> bool {
    |r: RecordView| r.position.plies_left == depth
}

/// The records of `s` that are written at `depth`, in their order.
pub open spec fn written(s: Seq<RecordView>, depth: u32) -> Seq<RecordView> {
    s.filter(record_at_depth(depth))
}

/// The corpus lines of `s` at `depth`, one for every record written.
pub open spec fn corpus_rows(s: Seq<RecordView>, depth: u32) -> Seq<Seq<char>> {
    written(s, depth).map_values(|r: RecordView| corpus_line(r))
}

/// The texts of `rows` one after another.
pub open spec fn concat(rows: Seq<Seq<char>>) -> Seq<char>
    decreases rows.len(),
{
    if rows.len() == 0 {
        Seq::<char>::empty()
    } else {
        concat(rows.drop_last()) + rows.last()
    }
}

/// The corpus lines are one line for every record written, in their
/// order, and nothing else.
pub proof fn lemma_corpus_rows(s: Seq<RecordView>, depth: u32)
    ensures
        corpus_lines(s, depth) == concat(corpus_rows(s, depth)),
        corpus_rows(s, depth).len() == written(s, depth).len(),
    decreases s.len(),
{
    reveal(Seq::filter);
    if s.len() > 0 {
        let front = s.drop_last();
        lemma_corpus_rows(front, depth);
        if s.last().position.plies_left == depth {
            assert(written(s, depth) =~= written(front, depth).push(s.last()));
            assert(corpus_rows(s, depth) =~= corpus_rows(front, depth).push(
                corpus_line(s.last()),
            ));
            assert(corpus_rows(s, depth).drop_last() =~= corpus_rows(front, depth));
        } else {
            assert(written(s, depth) =~= written(front, depth));
        }
    } else {
        assert(corpus_rows(s, depth) =~= Seq::<Seq<char>>::empty());
    }
}

/// What is written for a group whose positions carry one label each. Every
/// record reached at `depth` is written, and nothing else; no position
/// stands in two of the records written; and there are as many lines as
/// there are different records reached at `depth`, however often the stages
/// before have reached them.
pub proof fn lemma_written_once(orbits: Seq<RecordView>, depth: u32)
    requires
        crate::data_loader::one_label(orbits),
    ensures
        written(deduplicated(orbits), depth).to_set() == orbits.to_set().filter(
            record_at_depth(depth),
        ),
        forall|i: int, j: int|
            0 <= i < j < written(deduplicated(orbits), depth).len() ==> (#[trigger] written(
                deduplicated(orbits),
                depth,
            )[i]).position != (#[trigger] written(deduplicated(orbits), depth)[j]).position,
        orbits.to_set().filter(record_at_depth(depth)).finite(),
        corpus_rows(deduplicated(orbits), depth).len() == orbits.to_set().filter(
            record_at_depth(depth),
        ).len(),
{
    let kept = deduplicated(orbits);
    let pred = record_at_depth(depth);
    let w = written(kept, depth);
    let reached = orbits.to_set().filter(pred);
    crate::data_loader::lemma_dedup_keeps_set(orbits);
    crate::data_loader::lemma_dedup_one_label(orbits);
    crate::sorting::lemma_filter_ascending(kept, pred, crate::record::record_before());
    lemma_corpus_rows(kept, depth);
    assert forall|x: RecordView| w.to_set().contains(x) == reached.contains(x) by {
        if w.contains(x) {
            let i = choose|i: int| 0 <= i < w.len() && w[i] == x;
            assert(kept.contains(w[i]) && pred(w[i]));
            assert(kept.to_set().contains(x));
        }
        if reached.contains(x) {
            assert(kept.to_set().contains(x));
            let k = choose|k: int| 0 <= k < kept.len() && kept[k] == x;
            assert(w.contains(kept[k]));
        }
    }
    assert(w.to_set() =~= reached);
    assert forall|i: int, j: int| 0 <= i < j < w.len() implies (#[trigger] w[i]).position != (
    #[trigger] w[j]).position by {
        assert(crate::record::record_before()(w[i], w[j]));
        crate::record::lemma_position_order(w[i].position, w[j].position, w[i].position);
    }
    assert(w.no_duplicates());
    w.unique_seq_to_set();
    vstd::seq_lib::seq_to_set_is_finite(w);
}

/// A group whose positions carry one label each is written once: the step
/// after the augmentation appends, to the corpus file of the run, the header
/// of the group and one line for every different record that the orbits
/// reach one ply below the depth of the run.
pub proof fn lemma_group_written(mode: Mode, s: IncubatorView, orbits: Seq<RecordView>)
    requires
        s.stage == Stage::Augmenting,
        orbits.len() > 0,
        crate::data_loader::one_label(orbits),
    ensures
        step_in(mode, s, EventView::Augmented(orbits)) matches Ok(
            (next, ActionView::Append { file, text, summary }),
        ) && {
            &&& next.stage == Stage::Writing
            &&& file == destination(s.mate)
            &&& text == "# "@ + s.kifudir[s.group as int] + "\n"@ + concat(
                corpus_rows(deduplicated(orbits), depth_below(s.mate)),
            )
            &&& corpus_rows(deduplicated(orbits), depth_below(s.mate)).len()
                == orbits.to_set().filter(record_at_depth(depth_below(s.mate))).len()
        },
{
    lemma_written_once(orbits, depth_below(s.mate));
    lemma_corpus_rows(deduplicated(orbits), depth_below(s.mate));
}

/// Appends to `out` the corpus lines of the records at `depth`.
pub fn push_corpus_lines(out: &mut Vec<char>, records: &Vec<Record>, depth: u32)
    ensures
        final(out)@ == old(out)@ + corpus_lines(views(records@), depth),
{
    let ghost all = views(records@);
    let comma = chars_of(",");
    let feed = chars_of("\n");
    let mut i: usize = 0;
    proof {
        assert(old(out)@ + corpus_lines(all.take(0), depth) =~= old(out)@);
    }
    while i < records.len()
        invariant
            i <= records.len(),
            all == views(records@),
            comma@ == ","@,
            feed@ == "\n"@,
            out@ == old(out)@ + corpus_lines(all.take(i as int), depth),
        decreases records.len() - i,
    {
        let record = &records[i];
        proof {
            assert(all.take(i + 1).drop_last() =~= all.take(i as int));
            assert(all.take(i + 1).last() == record@);
        }
        if record.position.is_last_n(depth) {
            let ghost before = out@;
            let code = chars_of(record.position.code.as_str());
            extend(out, &code);
            extend(out, &comma);
            push_signed_decimal(out, record.score as i64);
            extend(out, &feed);
            proof {
                assert(out@ =~= before + corpus_line(record@));
                assert(out@ =~= old(out)@ + corpus_lines(all.take(i + 1), depth));
            }
        }
        i += 1;
    }
    proof {
        assert(all.take(records.len() as int) =~= all);
    }
}

/// The text that is appended to the corpus for one group.
pub fn corpus_for(dir: &str, records: &Vec<Record>, depth: u32) -> (r: String)
    ensures
        r@ == corpus_text(dir@, views(records@), depth),
{
    let mut out = chars_of("# ");
    let name = chars_of(dir);
    extend(&mut out, &name);
    let feed = chars_of("\n");
    extend(&mut out, &feed);
    push_corpus_lines(&mut out, records, depth);
    string_of(&out)
}

/// Where a run stands.
#[derive(Clone, Copy, Debug, PartialEq, Eq, Structural)]
pub enum Stage {
    /// Nothing has been done yet.
    Idle,
    /// The positions of the current group are being loaded.
    Loading,
    /// The solver is expanding the positions of the current group.
    Expanding,
    /// The records of the current group are being fanned out to their
    /// orbits.
    Augmenting,
    /// The lines of the current group are being appended to the corpus.
    Writing,
    /// Every group has been written.
    Done,
}

/// A condition that ends the run.
#[derive(Clone, Copy, Debug, PartialEq, Eq, Structural)]
pub enum Fatal {
    /// The depth is below 3 or above 59.
    DepthOutOfRange,
    /// The corpus file for the depth is already there.
    DestinationExists,
    /// A position that was to be expanded is not at the depth of the run.
    DepthMismatch,
    /// The solver gave no successor for a whole group.
    EmptyExpansion,
    /// The orbits of a whole group hold no record.
    EmptyAugmentation,
    /// The event does not belong to the stage at which the run stands.
    OutOfOrder,
}

/// What has happened outside since the last step.
pub enum Event {
    /// The run begins; `destination_exists` says whether the corpus file of
    /// the run is already there.
    Start { destination_exists: bool },
    /// The positions of the current group have been loaded.
    Loaded(Vec<Record>),
    /// The solver has expanded the positions of the current group.
    Expanded(Vec<Record>),
    /// The records of the current group have been fanned out.
    Augmented(Vec<Record>),
    /// The lines of the current group have been appended.
    Written,
}

/// The mathematical value of an `Event`.
pub ghost enum EventView {
    Start { destination_exists: bool },
    Loaded(Seq<RecordView>),
    Expanded(Seq<RecordView>),
    Augmented(Seq<RecordView>),
    Written,
}

impl View for Event {
    type V = EventView;

    open spec fn view(&self) -> EventView {
        match *self {
            Event::Start { destination_exists } => EventView::Start { destination_exists },
            Event::Loaded(boards) => EventView::Loaded(views(boards@)),
            Event::Expanded(boards) => EventView::Expanded(views(boards@)),
            Event::Augmented(boards) => EventView::Augmented(views(boards@)),
            Event::Written => EventView::Written,
        }
    }
}

/// What is to be done outside before the next step. `summary` is the line
/// for the log that reports the deduplication just made.
pub enum Action {
    /// Load the positions at `depth` from the input directory `dir`.
    Load { dir: String, depth: u32 },
    /// Have the solver expand each of `boards`.
    Expand { boards: Vec<Record>, summary: String },
    /// Fan each of `records` out to its orbit.
    Augment { records: Vec<Record>, summary: String },
    /// Append `text` to the corpus file `file`.
    Append { file: String, text: String, summary: String },
    /// Nothing is left to do.
    Finish,
}

/// The mathematical value of an `Action`.
pub ghost enum ActionView {
    Load { dir: Seq<char>, depth: u32 },
    Expand { boards: Seq<RecordView>, summary: Seq<char> },
    Augment { records: Seq<RecordView>, summary: Seq<char> },
    Append { file: Seq<char>, text: Seq<char>, summary: Seq<char> },
    Finish,
}

impl View for Action {
    type V = ActionView;

    open spec fn view(&self) -> ActionView {
        match *self {
            Action::Load { dir, depth } => ActionView::Load { dir: dir@, depth },
            Action::Expand { boards, summary } => ActionView::Expand {
                boards: views(boards@),
                summary: summary@,
            },
            Action::Augment { records, summary } => ActionView::Augment {
                records: views(records@),
                summary: summary@,
            },
            Action::Append { file, text, summary } => ActionView::Append {
                file: file@,
                text: text@,
                summary: summary@,
            },
            Action::Finish => ActionView::Finish,
        }
    }
}

/// A run: its options, and where it stands.
pub struct Incubator {
    /// The input directories, one group each.
    pub kifudir: Vec<String>,
    /// The path of the log, as it was asked for.
    pub log: Option<String>,
    /// The depth `N` of the run.
    pub mate: u32,
    /// Where the positions come from.
    pub mode: Mode,
    /// The path of the solver's configuration, if one was given.
    pub ruversi_config: Option<String>,
    /// Whether progress is shown.
    pub show_progressbar: bool,
    /// Whether details are shown.
    pub verbose: bool,
    /// The stage at which the run stands.
    pub stage: Stage,
    /// The index of the current group.
    pub group: usize,
}

/// The mathematical value of an `Incubator`.
pub ghost struct IncubatorView {
    pub kifudir: Seq<Seq<char>>,
    pub log: Option<Seq<char>>,
    pub mate: u32,
    pub mode: Mode,
    pub ruversi_config: Option<Seq<char>>,
    pub show_progressbar: bool,
    pub verbose: bool,
    pub stage: Stage,
    pub group: nat,
}

impl View for Incubator {
    type V = IncubatorView;

    open spec fn view(&self) -> IncubatorView {
        IncubatorView {
            kifudir: texts(self.kifudir@),
            log: match self.log {
                Some(path) => Some(path@),
                None => None,
            },
            mate: self.mate,
            mode: self.mode,
            ruversi_config: match self.ruversi_config {
                Some(path) => Some(path@),
                None => None,
            },
            show_progressbar: self.show_progressbar,
            verbose: self.verbose,
            stage: self.stage,
            group: self.group as nat,
        }
    }
}

/// The depths at which a run can be made.
pub open spec fn depth_in_range(mate: u32) -> bool {
    3 <= mate < 60
}

/// The depth one ply nearer to the end of the game than `mate`; 0 for 0.
pub open spec fn depth_below(mate: u32) -> u32 {
    if mate >= 1 {
        (mate - 1) as u32
    } else {
        0
    }
}

/// The name of the corpus file of a run at depth `mate`: it holds the
/// positions one ply nearer to the end of the game.
pub open spec fn destination(mate: u32) -> Seq<char> {
    "mate"@ + decimal(depth_below(mate) as nat) + ".txt"@
}

/// Every record of `s` is exactly `depth` plies before the end of the game.
pub open spec fn all_at_depth(s: Seq<RecordView>, depth: u32) -> bool {
    forall|i: int| 0 <= i < s.len() ==> (#[trigger] s[i]).position.plies_left == depth
}

/// The depth at which positions are loaded: game records give the positions
/// at the depth of the run, which the solver then expands; snapshots hold
/// solved successors already and give the positions one ply nearer to the
/// end.
pub open spec fn load_depth(mode: Mode, mate: u32) -> u32 {
    match mode {
        Mode::Kifu => mate,
        Mode::Mate => depth_below(mate),
    }
}

/// A run between its first and its last step has a current group, and its
/// depth is in range.
pub open spec fn well_formed(s: IncubatorView) -> bool {
    match s.stage {
        Stage::Idle | Stage::Done => true,
        _ => s.group < s.kifudir.len() && depth_in_range(s.mate),
    }
}

/// The step that turns to the group of index `g` in a run of the mode
/// `mode`: it is loaded, or the run is done where no group is left.
pub open spec fn turn_to_group(mode: Mode, s: IncubatorView, g: nat) -> (
    IncubatorView,
    ActionView,
) {
    if g < s.kifudir.len() {
        (
            IncubatorView { stage: Stage::Loading, group: g, ..s },
            ActionView::Load { dir: s.kifudir[g as int], depth: load_depth(mode, s.mate) },
        )
    } else {
        (IncubatorView { stage: Stage::Done, group: g, ..s }, ActionView::Finish)
    }
}

/// One step of a run of the mode `mode`: the state and the action that
/// follow from the state `s` and the event `e`, or the condition that ends
/// the run. The solver takes part only in a run on game records.
///
/// At the start the depth must be in range and the corpus file must not be
/// there. Every list that a stage hands over is deduplicated. Positions from
/// game records must all be at the depth of the run before the solver sees
/// them. An expansion or an augmentation that gives nothing ends the run.
/// What is written are the records one ply nearer to the end of the game
/// than the depth of the run.
pub open spec fn step_in(mode: Mode, s: IncubatorView, e: EventView) -> Result<
    (IncubatorView, ActionView),
    Fatal,
> {
    match (s.stage, e) {
        (Stage::Idle, EventView::Start { destination_exists }) => {
            if !depth_in_range(s.mate) {
                Err(Fatal::DepthOutOfRange)
            } else if destination_exists {
                Err(Fatal::DestinationExists)
            } else {
                Ok(turn_to_group(mode, s, 0))
            }
        },
        (Stage::Loading, EventView::Loaded(boards)) => {
            let kept = deduplicated(boards);
            let summary = boards_summary(kept.len());
            match mode {
                Mode::Kifu => if all_at_depth(kept, s.mate) {
                    Ok(
                        (
                            IncubatorView { stage: Stage::Expanding, ..s },
                            ActionView::Expand { boards: kept, summary },
                        ),
                    )
                } else {
                    Err(Fatal::DepthMismatch)
                },
                Mode::Mate => Ok(
                    (
                        IncubatorView { stage: Stage::Augmenting, ..s },
                        ActionView::Augment { records: kept, summary },
                    ),
                ),
            }
        },
        (Stage::Expanding, EventView::Expanded(mates)) => {
            if mode != Mode::Kifu {
                Err(Fatal::OutOfOrder)
            } else if mates.len() == 0 {
                Err(Fatal::EmptyExpansion)
            } else {
                let kept = deduplicated(mates);
                Ok(
                    (
                        IncubatorView { stage: Stage::Augmenting, ..s },
                        ActionView::Augment { records: kept, summary: boards_summary(kept.len()) },
                    ),
                )
            }
        },
        (Stage::Augmenting, EventView::Augmented(orbits)) => {
            if orbits.len() == 0 {
                Err(Fatal::EmptyAugmentation)
            } else {
                let kept = deduplicated(orbits);
                Ok(
                    (
                        IncubatorView { stage: Stage::Writing, ..s },
                        ActionView::Append {
                            file: destination(s.mate),
                            text: corpus_text(
                                s.kifudir[s.group as int],
                                kept,
                                depth_below(s.mate),
                            ),
                            summary: boards_summary(kept.len()),
                        },
                    ),
                )
            }
        },
        (Stage::Writing, EventView::Written) => Ok(turn_to_group(mode, s, s.group + 1)),
        _ => Err(Fatal::OutOfOrder),
    }
}

/// One step of a run in its own mode.
pub open spec fn step(s: IncubatorView, e: EventView) -> Result<(IncubatorView, ActionView), Fatal> {
    step_in(s.mode, s, e)
}

/// A run does not begin where its corpus file is already there: the first
/// step fails, nothing is loaded and the solver is not asked.
pub proof fn lemma_existing_destination_stops(mode: Mode, s: IncubatorView)
    requires
        s.stage == Stage::Idle,
    ensures
        step_in(mode, s, EventView::Start { destination_exists: true }) is Err,
        depth_in_range(s.mate) ==> step_in(mode, s, EventView::Start { destination_exists: true })
            == Err::<(IncubatorView, ActionView), Fatal>(Fatal::DestinationExists),
{
}

/// Whatever the solver is asked to expand is at the depth of the run, and
/// it is asked only in a run on game records.
pub proof fn lemma_expansion_at_depth(mode: Mode, s: IncubatorView, e: EventView)
    ensures
        step_in(mode, s, e) matches Ok((next, ActionView::Expand { boards, summary }))
            ==> all_at_depth(boards, s.mate) && mode == Mode::Kifu && next.stage
            == Stage::Expanding,
{
}

/// What a step of a run of the mode `mode` must bring about: where
/// `step_in` gives a state and an action, the run is in that state and the
/// action is returned; where it gives a fatal condition, the run stands
/// where it stood and the condition is returned.
pub open spec fn step_made(
    mode: Mode,
    before: IncubatorView,
    e: EventView,
    after: IncubatorView,
    r: Result<Action, Fatal>,
) -> bool {
    match step_in(mode, before, e) {
        Ok((next, action)) => after == next && (r matches Ok(made) && made@ == action),
        Err(fatal) => after == before && (r matches Err(cause) && cause == fatal),
    }
}

/// Tells whether every record of `records` is exactly `depth` plies before
/// the end of the game.
pub fn every_at_depth(records: &Vec<Record>, depth: u32) -> (r: bool)
    ensures
        r == all_at_depth(views(records@), depth),
{
    let mut i: usize = 0;
    while i < records.len()
        invariant
            i <= records.len(),
            forall|k: int| 0 <= k < i ==> (#[trigger] views(records@)[k]).position.plies_left == depth,
        decreases records.len() - i,
    {
        if !records[i].position.is_last_n(depth) {
            proof {
                assert(views(records@)[i as int].position.plies_left != depth);
            }
            return false;
        }
        i += 1;
    }
    true
}

/// The name of the corpus file of a run at depth `mate`.
pub fn dest_file(mate: u32) -> (r: String)
    ensures
        r@ == destination(mate),
{
    let below: u32 = if mate >= 1 {
        mate - 1
    } else {
        0
    };
    let mut out = chars_of("mate");
    push_decimal(&mut out, below as u64);
    let tail = chars_of(".txt");
    extend(&mut out, &tail);
    string_of(&out)
}

impl Incubator {
    /// Tells whether the run is in a valid state.
    pub fn is_well_formed(&self) -> (r: bool)
        ensures
            r == well_formed(self@),
    {
        let groups: usize = self.kifudir.len();
        proof {
            assert(texts(self.kifudir@).len() == groups);
        }
        let in_range = 3 <= self.mate && self.mate < 60;
        match self.stage {
            Stage::Idle => true,
            Stage::Done => true,
            _ => self.group < groups && in_range,
        }
    }

    /// Turns to the group of index `g`.
    fn turn_to(&mut self, mode: Mode, g: usize) -> (r: Action)
        requires
            depth_in_range(old(self).mate),
        ensures
            (final(self)@, r@) == turn_to_group(mode, old(self)@, g as nat),
            well_formed(final(self)@),
    {
        self.group = g;
        if g < self.kifudir.len() {
            self.stage = Stage::Loading;
            let depth = match mode {
                Mode::Kifu => self.mate,
                Mode::Mate => self.mate - 1,
            };
            Action::Load { dir: self.kifudir[g].clone(), depth }
        } else {
            self.stage = Stage::Done;
            Action::Finish
        }
    }

    /// The first step: the depth and the destination are checked.
    fn begin(&mut self, mode: Mode, destination_exists: bool) -> (r: Result<Action, Fatal>)
        requires
            old(self).stage == Stage::Idle,
        ensures
            step_made(mode, old(self)@, EventView::Start { destination_exists }, final(self)@, r),
            well_formed(final(self)@),
    {
        if self.mate < 3 || 60 <= self.mate {
            Err(Fatal::DepthOutOfRange)
        } else if destination_exists {
            Err(Fatal::DestinationExists)
        } else {
            Ok(self.turn_to(mode, 0))
        }
    }

    /// The step after loading from game records: the positions go to the
    /// solver.
    fn to_expansion(&mut self, boards: Vec<Record>) -> (r: Result<Action, Fatal>)
        requires
            old(self).stage == Stage::Loading,
            well_formed(old(self)@),
        ensures
            step_made(
                Mode::Kifu,
                old(self)@,
                EventView::Loaded(views(boards@)),
                final(self)@,
                r,
            ),
            well_formed(final(self)@),
    {
        let mut kept = boards;
        let summary = dedupboards(&mut kept);
        if every_at_depth(&kept, self.mate) {
            self.stage = Stage::Expanding;
            Ok(Action::Expand { boards: kept, summary })
        } else {
            Err(Fatal::DepthMismatch)
        }
    }

    /// The step that hands records to the augmentation.
    fn to_augmentation(&mut self, records: Vec<Record>) -> (r: Action)
        requires
            well_formed(old(self)@),
            old(self).stage == Stage::Loading || old(self).stage == Stage::Expanding,
        ensures
            final(self)@ == (IncubatorView { stage: Stage::Augmenting, ..old(self)@ }),
            r@ == (ActionView::Augment {
                records: deduplicated(views(records@)),
                summary: boards_summary(deduplicated(views(records@)).len()),
            }),
            well_formed(final(self)@),
    {
        let mut kept = records;
        let summary = dedupboards(&mut kept);
        proof {
            assert(views(kept@).len() == kept@.len());
        }
        self.stage = Stage::Augmenting;
        Action::Augment { records: kept, summary }
    }

    /// The step after the augmentation: the lines of the group are made.
    fn to_writing(&mut self, mode: Mode, orbits: Vec<Record>) -> (r: Result<Action, Fatal>)
        requires
            old(self).stage == Stage::Augmenting,
            well_formed(old(self)@),
        ensures
            step_made(mode, old(self)@, EventView::Augmented(views(orbits@)), final(self)@, r),
            well_formed(final(self)@),
    {
        if orbits.len() == 0 {
            proof {
                assert(views(orbits@).len() == 0);
            }
            return Err(Fatal::EmptyAugmentation);
        }
        proof {
            assert(views(orbits@).len() == orbits@.len());
        }
        let mut kept = orbits;
        let summary = dedupboards(&mut kept);
        proof {
            assert(views(kept@).len() == kept@.len());
            assert(texts(self.kifudir@)[self.group as int] == self.kifudir@[self.group as int]@);
        }
        let text = corpus_for(self.kifudir[self.group].as_str(), &kept, self.mate - 1);
        let file = dest_file(self.mate);
        self.stage = Stage::Writing;
        Ok(Action::Append { file, text, summary })
    }

    /// Makes one step of a run on game records: the positions loaded go to
    /// the solver, its successors to the augmentation, and the orbits are
    /// written.
    pub fn run_kifu(&mut self, event: Event) -> (r: Result<Action, Fatal>)
        requires
            well_formed(old(self)@),
        ensures
            step_made(Mode::Kifu, old(self)@, event@, final(self)@, r),
            well_formed(final(self)@),
    {
        match event {
            Event::Start { destination_exists } => {
                if self.stage == Stage::Idle {
                    self.begin(Mode::Kifu, destination_exists)
                } else {
                    Err(Fatal::OutOfOrder)
                }
            },
            Event::Loaded(boards) => {
                if self.stage == Stage::Loading {
                    self.to_expansion(boards)
                } else {
                    Err(Fatal::OutOfOrder)
                }
            },
            Event::Expanded(mates) => {
                if self.stage == Stage::Expanding {
                    if mates.len() == 0 {
                        proof {
                            assert(views(mates@).len() == 0);
                        }
                        Err(Fatal::EmptyExpansion)
                    } else {
                        proof {
                            assert(views(mates@).len() == mates@.len());
                        }
                        Ok(self.to_augmentation(mates))
                    }
                } else {
                    Err(Fatal::OutOfOrder)
                }
            },
            Event::Augmented(orbits) => {
                if self.stage == Stage::Augmenting {
                    self.to_writing(Mode::Kifu, orbits)
                } else {
                    Err(Fatal::OutOfOrder)
                }
            },
            Event::Written => {
                if self.stage == Stage::Writing {
                    let groups: usize = self.kifudir.len();
                    proof {
                        assert(texts(self.kifudir@).len() == groups);
                    }
                    Ok(self.turn_to(Mode::Kifu, self.group + 1))
                } else {
                    Err(Fatal::OutOfOrder)
                }
            },
        }
    }

    /// Makes one step of a run on snapshots: the positions loaded go to the
    /// augmentation at once, and the solver takes no part.
    pub fn run_mate(&mut self, event: Event) -> (r: Result<Action, Fatal>)
        requires
            well_formed(old(self)@),
        ensures
            step_made(Mode::Mate, old(self)@, event@, final(self)@, r),
            well_formed(final(self)@),
    {
        match event {
            Event::Start { destination_exists } => {
                if self.stage == Stage::Idle {
                    self.begin(Mode::Mate, destination_exists)
                } else {
                    Err(Fatal::OutOfOrder)
                }
            },
            Event::Loaded(boards) => {
                if self.stage == Stage::Loading {
                    Ok(self.to_augmentation(boards))
                } else {
                    Err(Fatal::OutOfOrder)
                }
            },
            Event::Expanded(_) => Err(Fatal::OutOfOrder),
            Event::Augmented(orbits) => {
                if self.stage == Stage::Augmenting {
                    self.to_writing(Mode::Mate, orbits)
                } else {
                    Err(Fatal::OutOfOrder)
                }
            },
            Event::Written => {
                if self.stage == Stage::Writing {
                    let groups: usize = self.kifudir.len();
                    proof {
                        assert(texts(self.kifudir@).len() == groups);
                    }
                    Ok(self.turn_to(Mode::Mate, self.group + 1))
                } else {
                    Err(Fatal::OutOfOrder)
                }
            },
        }
    }

    /// Makes one step of the run: takes what has happened outside and says
    /// what is to be done next, or why the run ends.
    pub fn run(&mut self, event: Event) -> (r: Result<Action, Fatal>)
        requires
            well_formed(old(self)@),
        ensures
            step_made(old(self)@.mode, old(self)@, event@, final(self)@, r),
            well_formed(final(self)@),
    {
        match self.mode {
            Mode::Kifu => self.run_kifu(event),
            Mode::Mate => self.run_mate(event),
        }
    }
}

impl From<Arg> for Incubator {
    /// The run that the options `arg` ask for, before its first step.
    fn from(arg: Arg) -> (r: Incubator) {
        Incubator {
            kifudir: arg.kifudir,
            log: arg.log,
            mate: arg.mate,
            mode: arg.md,
            ruversi_config: arg.ru_config,
            show_progressbar: arg.progressbar,
            verbose: arg.verbose,
            stage: Stage::Idle,
            group: 0,
        }
    }
}

impl FromSpecImpl<Arg> for Incubator {
    open spec fn obeys_from_spec() -> bool {
        true
    }

    open spec fn from_spec(arg: Arg) -> Incubator {
        Incubator {
            kifudir: arg.kifudir,
            log: arg.log,
            mate: arg.mate,
            mode: arg.md,
            ruversi_config: arg.ru_config,
            show_progressbar: arg.progressbar,
            verbose: arg.verbose,
            stage: Stage::Idle,
            group: 0,
        }
    }
}

/// The path of the log: `txt` with every `<DATETIME>` replaced by `stamp`,
/// or the null device where no path was asked for.
pub open spec fn log_path(txt: Option<Seq<char>>, stamp: Seq<char>, windows: bool) -> Seq<char> {
    match txt {
        Some(path) => replaced(path, "<DATETIME>"@, stamp),
        None => if windows {
            "nul"@
        } else {
            "/dev/null"@
        },
    }
}

/// The view of an optional text.
pub open spec fn optional_text(txt: Option<String>) -> Option<Seq<char>> {
    match txt {
        Some(t) => Some(t@),
        None => None,
    }
}

/// The path of the log for a run that starts at the time written by
/// `stamp`; `windows` says whether the null device is that of Windows.
pub fn expand_log_path(txt: &Option<String>, stamp: &str, windows: bool) -> (r: String)
    ensures
        r@ == log_path(optional_text(*txt), stamp@, windows),
{
    match txt {
        Some(path) => {
            let pattern = chars_of("<DATETIME>");
            let with = chars_of(stamp);
            string_of(&replace(&chars_of(path.as_str()), &pattern, &with))
        },
        None => {
            if windows {
                "nul".to_owned()
            } else {
                "/dev/null".to_owned()
            }
        },
    }
}

/// What holds of every time stamp: it has at least 14 characters, each a
/// decimal digit or a plus sign.
pub open spec fn is_stamp(stamp: Seq<char>) -> bool {
    &&& stamp.len() >= 14
    &&& forall|i: int| 0 <= i < stamp.len() ==> is_digit(#[trigger] stamp[i]) || stamp[i] == '+'
}

/// The current time in UTC, from `chrono::Utc::now`, as `DateTime::format`
/// writes it with `%Y%m%d%H%M%S`. The text differs from call to call; of
/// every one it holds that the year is written in four digits, or with a
/// plus sign and more digits beyond 9999, and month, day, hour, minute and
/// second in two digits each. `Utc::now` stops the program where the
/// system's clock stands before 1970.
#[verifier::external_body]
fn utc_stamp() -> (r: String)
    ensures
        is_stamp(r@),
{
    chrono::Utc::now().format("%Y%m%d%H%M%S").to_string()
}

/// The path of the log for a run that starts now. Whatever the time is,
/// the result is the path asked for with one time stamp put in place of
/// every `<DATETIME>`; without a path it is the null device.
pub fn format_log_path(txt: &Option<String>, windows: bool) -> (r: String)
    ensures
        exists|stamp: Seq<char>|
            is_stamp(stamp) && r@ == log_path(optional_text(*txt), stamp, windows),
{
    let stamp = utc_stamp();
    expand_log_path(txt, stamp.as_str(), windows)
}

/// `msg` as a line: with a line feed at its end, added where it has none.
pub open spec fn as_line(msg: Seq<char>) -> Seq<char> {
    if ends_with(msg, "\n"@) {
        msg
    } else {
        msg + "\n"@
    }
}

impl Fatal {
    /// The words that report the condition in a run at depth `mate`.
    pub open spec fn text(self, mate: u32) -> Seq<char> {
        match self {
            Fatal::DepthOutOfRange => "self.mate < 3 || 60 <= self.mate"@,
            Fatal::DestinationExists => destination(mate) + " exists!"@,
            Fatal::DepthMismatch => "!ban.is_last_n("@ + decimal(mate as nat) + ")"@,
            Fatal::EmptyExpansion => "mates: 0"@,
            Fatal::EmptyAugmentation => "mates: 0"@,
            Fatal::OutOfOrder => "event out of order"@,
        }
    }

    /// Reports the condition in words.
    pub fn message(&self, mate: u32) -> (r: String)
        ensures
            r@ == self.text(mate),
    {
        match self {
            Fatal::DepthOutOfRange => "self.mate < 3 || 60 <= self.mate".to_owned(),
            Fatal::DestinationExists => {
                let mut out = chars_of(dest_file(mate).as_str());
                let tail = chars_of(" exists!");
                extend(&mut out, &tail);
                string_of(&out)
            },
            Fatal::DepthMismatch => {
                let mut out = chars_of("!ban.is_last_n(");
                push_decimal(&mut out, mate as u64);
                let tail = chars_of(")");
                extend(&mut out, &tail);
                string_of(&out)
            },
            Fatal::EmptyExpansion => "mates: 0".to_owned(),
            Fatal::EmptyAugmentation => "mates: 0".to_owned(),
            Fatal::OutOfOrder => "event out of order".to_owned(),
        }
    }
}

impl Incubator {
    /// The path of the solver's configuration; empty where none was given.
    pub fn config_path(&self) -> (r: String)
        ensures
            r@ == match self@.ruversi_config {
                Some(path) => path,
                None => Seq::<char>::empty(),
            },
    {
        match &self.ruversi_config {
            Some(path) => path.clone(),
            None => String::new(),
        }
    }

    /// The line that goes to the log for the message `msg`, and whether it
    /// is shown on the screen as well: it is, unless progress is shown there.
    pub fn putlog(&self, msg: &str) -> (r: (String, bool))
        ensures
            r.0@ == as_line(msg@),
            r.1 == !self@.show_progressbar,
    {
        let mut line = chars_of(msg);
        let feed = chars_of("\n");
        if !has_suffix(&line, &feed) {
            extend(&mut line, &feed);
        }
        (string_of(&line), !self.show_progressbar)
    }

    /// The shortcut for depth 3: the records taken from game records are
    /// deduplicated, and those two plies before the end of the game are
    /// written to `mate2.txt`, without a header.
    pub fn extract_mate3(&self, boards: Vec<Record>) -> (r: Action)
        ensures
            r@ == (ActionView::Append {
                file: "mate2.txt"@,
                text: corpus_lines(deduplicated(views(boards@)), 2),
                summary: boards_summary(deduplicated(views(boards@)).len()),
            }),
    {
        let mut kept = boards;
        let summary = dedupboards(&mut kept);
        proof {
            assert(views(kept@).len() == kept@.len());
        }
        let mut out: Vec<char> = Vec::new();
        push_corpus_lines(&mut out, &kept, 2);
        proof {
            assert(out@ =~= corpus_lines(views(kept@), 2));
        }
        Action::Append { file: "mate2.txt".to_owned(), text: string_of(&out), summary }
    }
}

} // verus!
