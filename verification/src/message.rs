//! Sentences with numbers in them.
//!
//! A [`Message`] is a row of pieces, each a fixed text or a number together
//! with the way it is to be written. Turning a double into digits is left to
//! whoever shows the message.

use vstd::prelude::*;

use crate::double::Double;
use crate::text;

verus! {

/// How a number is to be written.
#[derive(Clone, Copy, Debug, PartialEq, Eq, Structural)]
pub enum Style {
    /// In the shortest notation that reads back as the same number.
    Plain,
    /// With the given number of digits behind the point.
    Fixed(u8),
    /// In scientific notation with the given number of digits behind the
    /// point.
    Exponent(u8),
    /// A hundred times the number, with the given number of digits behind
    /// the point.
    Percent(u8),
    /// Like [`Style::Plain`], but always with a point or an exponent.
    Debug,
    /// As whole rupees with Indian digit grouping.
    Rupees,
}

/// One piece of a message.
#[derive(Debug)]
pub enum Piece {
    Text(String),
    Number(Double, Style),
}

/// What a [`Piece`] says.
pub enum PieceView {
    Text(Seq<char>),
    Number(Double, Style),
}

impl View for Piece {
    type V = PieceView;

    open spec fn view(&self) -> PieceView {
        match self {
            Piece::Text(s) => PieceView::Text(s@),
            Piece::Number(x, style) => PieceView::Number(*x, *style),
        }
    }
}

/// A row of pieces.
#[derive(Debug)]
pub struct Message {
    pub pieces: Vec<Piece>,
}

impl View for Message {
    type V = Seq<PieceView>;

    open spec fn view(&self) -> Seq<PieceView> {
        self.pieces@.map_values(|p: Piece| p@)
    }
}

/// A message that is one fixed text.
pub open spec fn plain(text: Seq<char>) -> Seq<PieceView> {
    seq![PieceView::Text(text)]
}

impl Message {
    /// The message without pieces.
    pub fn new() -> (res: Message)
        ensures
            res@ == Seq::<PieceView>::empty(),
    {
        let res = Message { pieces: Vec::new() };
        assert(res@ =~= Seq::empty());
        res
    }

    /// A message that is one fixed text.
    pub fn of(fixed: &str) -> (res: Message)
        ensures
            res@ == plain(fixed@),
    {
        let mut res = Message::new();
        res.text(fixed);
        assert(res@ =~= plain(fixed@));
        res
    }

    /// Adds a fixed text.
    pub fn text(&mut self, fixed: &str)
        ensures
            final(self)@ == old(self)@.push(PieceView::Text(fixed@)),
    {
        self.pieces.push(Piece::Text(text::copy(fixed)));
        assert(self@ =~= old(self)@.push(PieceView::Text(fixed@)));
    }

    /// Adds a number.
    pub fn number(&mut self, value: Double, style: Style)
        ensures
            final(self)@ == old(self)@.push(PieceView::Number(value, style)),
    {
        self.pieces.push(Piece::Number(value, style));
        assert(self@ =~= old(self)@.push(PieceView::Number(value, style)));
    }

    /// Adds a count, in decimal notation.
    pub fn count(&mut self, value: usize)
        ensures
            final(self)@ == old(self)@.push(PieceView::Text(text::decimal(value as nat))),
    {
        let digits = text::decimal_text(value as u64);
        self.text(digits.as_str());
    }

    /// Adds all pieces of another message.
    pub fn append(&mut self, other: &Message)
        ensures
            final(self)@ == old(self)@ + other@,
    {
        let mut i: usize = 0;
        while i < other.pieces.len()
            invariant
                i <= other.pieces@.len(),
                self@ == old(self)@ + other@.take(i as int),
            decreases other.pieces.len() - i,
        {
            match &other.pieces[i] {
                Piece::Text(s) => self.text(s.as_str()),
                Piece::Number(x, style) => self.number(*x, *style),
            }
            i += 1;
            assert(self@ =~= old(self)@ + other@.take(i as int));
        }
        assert(other@.take(other@.len() as int) =~= other@);
    }

    /// An equal message.
    pub fn duplicate(&self) -> (res: Message)
        ensures
            res@ == self@,
    {
        let mut res = Message::new();
        res.append(self);
        assert(res@ =~= self@);
        res
    }
}

} // verus!
