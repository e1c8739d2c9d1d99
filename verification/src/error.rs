//! What can go wrong while an experiment is run.

use vstd::prelude::*;

use crate::message::{Message, PieceView};

verus! {

/// An error of the compute layer.
#[derive(Debug)]
pub enum ComputeError {
    /// A request to the price source failed.
    Http(Message),
    /// A file could not be read or written.
    Io(Message),
    /// A cached price file is malformed.
    Csv(Message),
    /// A document is not the JSON it should be.
    Json(Message),
    /// The price data cannot be used.
    Data(Message),
    /// The factor model cannot be fitted.
    Model(Message),
    /// The request itself is wrong.
    InvalidInput(Message),
    /// The snapshot store failed.
    Store(Message),
    /// A drift request has no baseline to compare with.
    NoPriorSnapshot(Message),
    /// The loss asked for cannot be reached within the factor bounds.
    ReverseStressInfeasible(Message),
}

/// What a [`ComputeError`] says.
pub enum ComputeErrorView {
    Http(Seq<PieceView>),
    Io(Seq<PieceView>),
    Csv(Seq<PieceView>),
    Json(Seq<PieceView>),
    Data(Seq<PieceView>),
    Model(Seq<PieceView>),
    InvalidInput(Seq<PieceView>),
    Store(Seq<PieceView>),
    NoPriorSnapshot(Seq<PieceView>),
    ReverseStressInfeasible(Seq<PieceView>),
}

impl View for ComputeError {
    type V = ComputeErrorView;

    open spec fn view(&self) -> ComputeErrorView {
        match self {
            ComputeError::Http(m) => ComputeErrorView::Http(m@),
            ComputeError::Io(m) => ComputeErrorView::Io(m@),
            ComputeError::Csv(m) => ComputeErrorView::Csv(m@),
            ComputeError::Json(m) => ComputeErrorView::Json(m@),
            ComputeError::Data(m) => ComputeErrorView::Data(m@),
            ComputeError::Model(m) => ComputeErrorView::Model(m@),
            ComputeError::InvalidInput(m) => ComputeErrorView::InvalidInput(m@),
            ComputeError::Store(m) => ComputeErrorView::Store(m@),
            ComputeError::NoPriorSnapshot(m) => ComputeErrorView::NoPriorSnapshot(m@),
            ComputeError::ReverseStressInfeasible(m) => ComputeErrorView::ReverseStressInfeasible(
                m@,
            ),
        }
    }
}

impl ComputeErrorView {
    /// The sentence shown to a reader: the message behind a word on where the
    /// error comes from.
    pub open spec fn sentence(self) -> Seq<PieceView> {
        match self {
            ComputeErrorView::Http(m) => seq![PieceView::Text("http request failed: "@)] + m,
            ComputeErrorView::Io(m) => seq![PieceView::Text("io error: "@)] + m,
            ComputeErrorView::Csv(m) => seq![PieceView::Text("csv error: "@)] + m,
            ComputeErrorView::Json(m) => seq![PieceView::Text("json error: "@)] + m,
            ComputeErrorView::Data(m) => seq![PieceView::Text("data error: "@)] + m,
            ComputeErrorView::Model(m) => seq![PieceView::Text("model error: "@)] + m,
            ComputeErrorView::InvalidInput(m) => seq![PieceView::Text("invalid input: "@)] + m,
            ComputeErrorView::Store(m) => seq![PieceView::Text("snapshot store error: "@)] + m,
            ComputeErrorView::NoPriorSnapshot(m) => m,
            ComputeErrorView::ReverseStressInfeasible(m) => m,
        }
    }
}

fn prefixed(prefix: &str, message: &Message) -> (res: Message)
    ensures
        res@ == seq![PieceView::Text(prefix@)] + message@,
{
    let mut res = Message::of(prefix);
    res.append(message);
    res
}

impl ComputeError {
    /// The sentence shown to a reader.
    pub fn message(&self) -> (res: Message)
        ensures
            res@ == self@.sentence(),
    {
        match self {
            ComputeError::Http(m) => prefixed("http request failed: ", m),
            ComputeError::Io(m) => prefixed("io error: ", m),
            ComputeError::Csv(m) => prefixed("csv error: ", m),
            ComputeError::Json(m) => prefixed("json error: ", m),
            ComputeError::Data(m) => prefixed("data error: ", m),
            ComputeError::Model(m) => prefixed("model error: ", m),
            ComputeError::InvalidInput(m) => prefixed("invalid input: ", m),
            ComputeError::Store(m) => prefixed("snapshot store error: ", m),
            ComputeError::NoPriorSnapshot(m) => m.duplicate(),
            ComputeError::ReverseStressInfeasible(m) => m.duplicate(),
        }
    }
}

} // verus!
