//! What the embedding program words: expressions, paths, numbers and documents
//! as text.

use vstd::prelude::*;

use crate::expr::{Expr, ExprView};
use crate::plan::{AlterAction, AlterActionView, StoredJsonPath, StoredJsonPathView};
use crate::value::{Value, ValueView};

verus! {

/// Something to be put in words.
pub enum Subject<'a> {
    /// An expression, spelled out.
    Expr(&'a Expr),
    /// An expression, by the name of the column that it makes.
    Name(&'a Expr),
    /// A stored path.
    Path(&'a StoredJsonPath),
    /// A change of a type.
    Action(&'a AlterAction),
    /// A finite float, given by its bits, as a JSON number.
    Number(u64),
    /// A stored document as JSON text; none where it cannot be read.
    Document(&'a Vec<u8>),
    /// A value as a client reads it.
    Plain(&'a Value),
    /// A value, spelled out.
    Value(&'a Value),
}

/// What a [`Subject`] stands for.
pub enum SubjectView {
    Expr(ExprView),
    Name(ExprView),
    Path(StoredJsonPathView),
    Action(AlterActionView),
    Number(u64),
    Document(Seq<u8>),
    Plain(ValueView),
    Value(ValueView),
}

impl<'a> DeepView for Subject<'a> {
    type V = SubjectView;

    open spec fn deep_view(&self) -> SubjectView {
        match self {
            Subject::Expr(expr) => SubjectView::Expr(expr.deep_view()),
            Subject::Name(expr) => SubjectView::Name(expr.deep_view()),
            Subject::Path(path) => SubjectView::Path(path.deep_view()),
            Subject::Action(action) => SubjectView::Action(action.deep_view()),
            Subject::Number(bits) => SubjectView::Number(*bits),
            Subject::Document(bytes) => SubjectView::Document(bytes@),
            Subject::Plain(value) => SubjectView::Plain(value.deep_view()),
            Subject::Value(value) => SubjectView::Value(value.deep_view()),
        }
    }
}

/// How each subject is worded.
pub type WordingModel = spec_fn(SubjectView) -> Option<Seq<char>>;

/// The words for a subject; none are the empty text.
pub open spec fn words(model: WordingModel, subject: SubjectView) -> Seq<char> {
    match model(subject) {
        Some(text) => text,
        None => Seq::empty(),
    }
}

/// The wording of subjects, as the embedding program supplies it, with the
/// function that it computes.
pub struct Wording<T> {
    pub run: T,
    pub model: Ghost<WordingModel>,
}

/// `run` returns, and returns what `model` says.
pub open spec fn words_as<T: Fn(Subject) -> Option<String>>(run: T, model: WordingModel) -> bool {
    &&& forall|subject: Subject| #[trigger] call_requires(run, (subject,))
    &&& forall|subject: Subject, text: Option<String>| #[trigger]
        call_ensures(run, (subject,), text) ==> text.deep_view() == model(subject.deep_view())
}

impl<T: Fn(Subject) -> Option<String>> Wording<T> {
    /// The wording is total and a function of what its argument holds.
    pub open spec fn ok(&self) -> bool {
        words_as(self.run, self.model@)
    }

    /// A wording that is a function of what its argument holds.
    pub fn new(run: T) -> (wording: Self)
        requires
            exists|model: WordingModel| #[trigger] words_as(run, model),
        ensures
            wording.ok(),
            wording.run == run,
    {
        let ghost model = choose|model: WordingModel| #[trigger] words_as(run, model);
        Wording { run, model: Ghost(model) }
    }

    /// A wording, together with what it computes.
    pub fn with_model(run: T, model: Ghost<WordingModel>) -> (wording: Self)
        requires
            words_as(run, model@),
        ensures
            wording.ok(),
            wording.run == run,
            wording.model@ == model@,
    {
        Wording { run, model }
    }

    /// The words for a subject, if there are any.
    pub fn find(&self, subject: Subject) -> (text: Option<String>)
        requires
            self.ok(),
        ensures
            text.deep_view() == (self.model@)(subject.deep_view()),
    {
        let text = (self.run)(subject);
        text
    }

    /// The words for a subject.
    pub fn word(&self, subject: Subject) -> (text: String)
        requires
            self.ok(),
        ensures
            text@ == words(self.model@, subject.deep_view()),
    {
        match self.find(subject) {
            Some(text) => text,
            None => {
                let text = String::new();
                assert(text@ =~= Seq::<char>::empty());
                text
            },
        }
    }
}

} // verus!
