//! Positions and the labelled records that the stages hand on.
use crate::sorting::stable_sort;
use std::cmp::Ordering;
use vstd::prelude::*;

verus! {

/// A board position as the stages see it: the canonical text that the board
/// collaborator writes for it, side to move included, and the number of plies
/// that separate it from the end of the game.
pub struct Position {
    pub code: String,
    pub plies_left: u32,
}

/// The mathematical value of a `Position`.
pub ghost struct PositionView {
    pub code: Seq<char>,
    pub plies_left: u32,
}

impl View for Position {
    type V = PositionView;

    open spec fn view(&self) -> PositionView {
        PositionView { code: self.code@, plies_left: self.plies_left }
    }
}

/// A position with its label: the stones of each side whose owner is settled,
/// and the score.
pub struct Record {
    pub position: Position,
    pub fixed_black: i8,
    pub fixed_white: i8,
    pub score: i8,
}

/// The mathematical value of a `Record`.
pub ghost struct RecordView {
    pub position: PositionView,
    pub fixed_black: i8,
    pub fixed_white: i8,
    pub score: i8,
}

impl View for Record {
    type V = RecordView;

    open spec fn view(&self) -> RecordView {
        RecordView {
            position: self.position@,
            fixed_black: self.fixed_black,
            fixed_white: self.fixed_white,
            score: self.score,
        }
    }
}

/// The values of the records of `s`.
pub open spec fn views(s: Seq<Record>) -> Seq<RecordView> {
    s.map_values(|r: Record| r@)
}

/// `a` stands before `b` in the order of texts: at the first index where they
/// differ `a` has the lower character, or `a` ends first.
pub open spec fn text_before(a: Seq<char>, b: Seq<char>) -> bool
    decreases a.len(),
{
    if b.len() == 0 {
        false
    } else if a.len() == 0 {
        true
    } else if a.first() != b.first() {
        a.first() < b.first()
    } else {
        text_before(a.drop_first(), b.drop_first())
    }
}

/// `a` stands before `b` in the order of positions: by the canonical text,
/// then by the plies left.
pub open spec fn position_before(a: PositionView, b: PositionView) -> bool {
    text_before(a.code, b.code) || (a.code == b.code && a.plies_left < b.plies_left)
}

/// The order in which records are sorted: that of their positions. The labels
/// take no part in it.
pub open spec fn record_before() -> spec_fn(RecordView, RecordView) -> bool {
    |a: RecordView, b: RecordView| position_before(a.position, b.position)
}

/// No text stands before itself, and of two texts at most one stands before
/// the other.
pub proof fn lemma_text_asymmetric(a: Seq<char>, b: Seq<char>)
    ensures
        text_before(a, b) ==> !text_before(b, a),
    decreases a.len(),
{
    if a.len() > 0 && b.len() > 0 && a.first() == b.first() {
        lemma_text_asymmetric(a.drop_first(), b.drop_first());
    }
}

/// Of two different texts one stands before the other.
pub proof fn lemma_text_total(a: Seq<char>, b: Seq<char>)
    ensures
        a == b || text_before(a, b) || text_before(b, a),
    decreases a.len(),
{
    if a.len() > 0 && b.len() > 0 {
        if a.first() == b.first() {
            lemma_text_total(a.drop_first(), b.drop_first());
            if a.drop_first() == b.drop_first() {
                assert(a =~= seq![a.first()] + a.drop_first());
                assert(b =~= seq![b.first()] + b.drop_first());
            }
        }
    } else if a.len() == 0 && b.len() == 0 {
        assert(a =~= b);
    }
}

/// Where `a` does not stand behind `b`, nor `b` behind `c`, `a` does not stand
/// behind `c`.
pub proof fn lemma_text_transitive(a: Seq<char>, b: Seq<char>, c: Seq<char>)
    ensures
        !text_before(b, a) && !text_before(c, b) ==> !text_before(c, a),
        text_before(a, b) && text_before(b, c) ==> text_before(a, c),
    decreases a.len(),
{
    if a.len() > 0 && b.len() > 0 && c.len() > 0 {
        lemma_text_transitive(a.drop_first(), b.drop_first(), c.drop_first());
    }
}

/// The order of positions is strict and total: it is consistent with
/// equality of positions.
pub proof fn lemma_position_order(a: PositionView, b: PositionView, c: PositionView)
    ensures
        position_before(a, b) ==> !position_before(b, a),
        a == b || position_before(a, b) || position_before(b, a),
        !position_before(b, a) && !position_before(c, b) ==> !position_before(c, a),
{
    lemma_text_asymmetric(a.code, b.code);
    lemma_text_asymmetric(b.code, a.code);
    lemma_text_total(a.code, b.code);
    lemma_text_total(b.code, c.code);
    lemma_text_total(a.code, c.code);
    lemma_text_transitive(a.code, b.code, c.code);
    lemma_text_transitive(c.code, b.code, a.code);
    lemma_text_asymmetric(b.code, c.code);
    lemma_text_asymmetric(c.code, b.code);
    lemma_text_asymmetric(a.code, c.code);
    lemma_text_asymmetric(c.code, a.code);
}

/// The order of records is one by which sequences can be sorted.
pub proof fn lemma_record_ranking()
    ensures
        crate::sorting::is_ranking(record_before()),
{
    let before = record_before();
    assert forall|a: RecordView, b: RecordView| #[trigger] before(a, b) implies !before(b, a) by {
        lemma_position_order(a.position, b.position, a.position);
    }
    assert forall|a: RecordView, b: RecordView, c: RecordView|
        !#[trigger] before(a, b) && !#[trigger] before(b, c) implies !before(a, c) by {
        lemma_position_order(c.position, b.position, a.position);
    }
}

impl Position {
    /// The position with canonical text `code`, `plies_left` plies before the
    /// end of the game.
    pub fn new(code: &str, plies_left: u32) -> (r: Position)
        ensures
            r@ == (PositionView { code: code@, plies_left }),
    {
        Position { code: code.to_owned(), plies_left }
    }

    /// A position equal to this one.
    pub fn copy(&self) -> (r: Position)
        ensures
            r@ == self@,
    {
        Position { code: self.code.clone(), plies_left: self.plies_left }
    }

    /// Tells whether the position is exactly `n` plies before the end of the
    /// game.
    pub fn is_last_n(&self, n: u32) -> (r: bool)
        ensures
            r == (self@.plies_left == n),
    {
        self.plies_left == n
    }

    /// Tells whether two positions are the same.
    pub fn same(&self, other: &Position) -> (r: bool)
        ensures
            r == (self@ == other@),
    {
        self.code == other.code && self.plies_left == other.plies_left
    }
}

impl Record {
    /// The record of `position` with its label.
    pub fn new(position: Position, fixed_black: i8, fixed_white: i8, score: i8) -> (r: Record)
        ensures
            r@ == (RecordView { position: position@, fixed_black, fixed_white, score }),
    {
        Record { position, fixed_black, fixed_white, score }
    }

    /// A record equal to this one.
    pub fn copy(&self) -> (r: Record)
        ensures
            r@ == self@,
    {
        Record {
            position: self.position.copy(),
            fixed_black: self.fixed_black,
            fixed_white: self.fixed_white,
            score: self.score,
        }
    }

    /// Tells whether two records agree field for field.
    pub fn same(&self, other: &Record) -> (r: bool)
        ensures
            r == (self@ == other@),
    {
        self.position.same(&other.position) && self.fixed_black == other.fixed_black
            && self.fixed_white == other.fixed_white && self.score == other.score
    }
}

/// How two texts stand to each other, by `str`'s `cmp`: texts are ordered
/// character by character, a lower code point first, and a text before any
/// longer one that begins with it. The result is `Equal` for equal texts only.
#[verifier::external_body]
fn compare_text(a: &str, b: &str) -> (o: Ordering)
    ensures
        (o == Ordering::Less) == text_before(a@, b@),
        (o == Ordering::Greater) == text_before(b@, a@),
        (o == Ordering::Equal) == (a@ == b@),
{
    a.cmp(b)
}

/// How two positions stand to each other in the order of positions.
pub fn compare_positions(a: &Position, b: &Position) -> (o: Ordering)
    ensures
        (o == Ordering::Less) == position_before(a@, b@),
        (o == Ordering::Greater) == position_before(b@, a@),
        (o == Ordering::Equal) == (a@ == b@),
{
    proof {
        lemma_position_order(a@, b@, a@);
    }
    match compare_text(a.code.as_str(), b.code.as_str()) {
        Ordering::Less => Ordering::Less,
        Ordering::Greater => Ordering::Greater,
        Ordering::Equal => {
            if a.plies_left < b.plies_left {
                Ordering::Less
            } else if a.plies_left > b.plies_left {
                Ordering::Greater
            } else {
                Ordering::Equal
            }
        },
    }
}

/// Sorts `records` by position with the slice's `sort_by`, which sorts in
/// ascending order and keeps records that rank alike in the order in which
/// they came.
#[verifier::external_body]
fn sort_by_position(records: &mut Vec<Record>)
    ensures
        views(final(records)@) == stable_sort(views(old(records)@), record_before()),
{
    records.sort_by(|a, b| compare_positions(&a.position, &b.position));
}

/// Sorts `records` by position; records of one position keep their order.
pub fn sort_records(records: &mut Vec<Record>)
    ensures
        views(final(records)@) == stable_sort(views(old(records)@), record_before()),
        crate::sorting::is_sorted(views(final(records)@), record_before()),
        views(final(records)@).to_multiset() == views(old(records)@).to_multiset(),
        final(records)@.len() == old(records)@.len(),
{
    sort_by_position(records);
    proof {
        lemma_record_ranking();
        crate::sorting::lemma_sort_sorted(views(old(records)@), record_before());
        crate::sorting::lemma_sort_multiset(views(old(records)@), record_before());
    }
}

} // verus!
