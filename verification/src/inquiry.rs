//! Questions that change nothing: asked one after the other, and answered
//! together.

use vstd::prelude::*;

use crate::kernel::{Op, Procedure, Reply, Request, Step};

verus! {

/// Some [`Op`]s with the text they carry.
pub open spec fn requests(ops: Seq<Op>) -> Seq<Request> {
    ops.map_values(|op: Op| op@)
}

/// Whether every question has been answered.
pub open spec fn answered(asks: Seq<Request>, replies: Seq<Reply>) -> bool {
    &&& replies.len() == asks.len()
    &&& forall|i: int| 0 <= i < asks.len() ==> (#[trigger] replies[i]).answers(asks[i])
}

/// Something to find out.
pub trait Inquiry: Sized {
    type Output;

    /// What it takes to find out.
    spec fn asks(&self) -> Seq<Request>;

    /// Whether `output` is what the answers come to.
    spec fn concludes(&self, replies: Seq<Reply>, output: Self::Output) -> bool;

    /// What is asked are questions.
    proof fn asks_questions(&self)
        ensures
            forall|i: int| 0 <= i < self.asks().len() ==> (#[trigger] self.asks()[i]).is_question(),
    ;

    fn questions(&self) -> (ops: Vec<Op>)
        ensures
            requests(ops@) == self.asks(),
    ;

    fn conclude(self, replies: Vec<Reply>) -> (output: Self::Output)
        requires
            answered(self.asks(), replies@),
        ensures
            self.concludes(replies@, output),
    ;
}

/// An inquiry under way.
#[derive(Debug)]
pub struct Inquest<I> {
    inquiry: I,
    pending: Vec<Op>,
    replies: Vec<Reply>,
}

impl<I: Inquiry> Inquest<I> {
    pub closed spec fn inquiry(&self) -> I {
        self.inquiry
    }

    /// The answers so far.
    pub closed spec fn replies(&self) -> Seq<Reply> {
        self.replies@
    }

    /// The questions, first to last.
    closed spec fn all(&self) -> Seq<Request> {
        requests(self.pending@)
    }

    /// Ask, there being something to ask.
    pub fn ask(inquiry: I) -> (inquest: Inquest<I>)
        requires
            inquiry.asks().len() > 0,
        ensures
            inquest.inquiry() == inquiry,
            inquest.replies() == Seq::<Reply>::empty(),
            inquest.well_formed(),
    {
        let pending: Vec<Op> = inquiry.questions();
        let replies: Vec<Reply> = Vec::new();
        assert(replies@ =~= Seq::<Reply>::empty());
        assert(requests(pending@).len() == pending@.len());
        Inquest { inquiry, pending, replies }
    }

    /// Start asking; there may be nothing to ask.
    pub fn start(inquiry: I) -> (step: Step<Inquest<I>, I::Output>)
        ensures
            match step {
                Step::Next(inquest) => {
                    &&& inquiry.asks().len() > 0
                    &&& inquest.inquiry() == inquiry
                    &&& inquest.replies() == Seq::<Reply>::empty()
                    &&& inquest.well_formed()
                },
                Step::Done(output) => {
                    &&& inquiry.asks().len() == 0
                    &&& inquiry.concludes(Seq::<Reply>::empty(), output)
                },
            },
    {
        let pending: Vec<Op> = inquiry.questions();
        let replies: Vec<Reply> = Vec::new();
        assert(replies@ =~= Seq::<Reply>::empty());
        assert(requests(pending@).len() == pending@.len());
        if pending.len() == 0 {
            Step::Done(inquiry.conclude(replies))
        } else {
            Step::Next(Inquest { inquiry, pending, replies })
        }
    }
}

impl<I: Inquiry> Inquest<I> {
    /// Whether there is something left to ask, and what has been asked is
    /// answered.
    pub closed spec fn is_complete(&self) -> bool {
        &&& self.all() == self.inquiry.asks()
        &&& self.replies.len() < self.pending.len()
        &&& forall|i: int|
            0 <= i < self.replies.len() ==> (#[trigger] self.replies@[i]).answers(
                self.inquiry.asks()[i],
            )
    }

    pub open spec fn next_request(&self) -> Request {
        self.inquiry().asks()[self.replies().len() as int]
    }
}

impl<I: Inquiry> Procedure for Inquest<I> {
    type Output = I::Output;

    open spec fn well_formed(&self) -> bool {
        self.is_complete()
    }

    open spec fn request(&self) -> Request {
        self.next_request()
    }

    fn op(&self) -> (op: Op) {
        let ghost _now = (self.well_formed(), self.request());
        proof {
            let i = self.replies.len() as int;
            assert(requests(self.pending@)[i] == self.pending@[i]@);
        }
        copy_op(&self.pending[self.replies.len()])
    }

    fn resume(self, reply: Reply) -> (step: Step<Self, Self::Output>)
        ensures
            match step {
                Step::Next(next) => {
                    &&& self.replies().len() + 1 < self.inquiry().asks().len()
                    &&& next.inquiry() == self.inquiry()
                    &&& next.replies() == self.replies().push(reply)
                },
                Step::Done(output) => {
                    &&& self.replies().len() + 1 == self.inquiry().asks().len()
                    &&& self.inquiry().concludes(self.replies().push(reply), output)
                },
            },
    {
        let ghost _now = (self.well_formed(), self.request());
        assert(requests(self.pending@).len() == self.pending@.len());
        let Inquest { inquiry, pending, mut replies } = self;
        replies.push(reply);
        if replies.len() == pending.len() {
            Step::Done(inquiry.conclude(replies))
        } else {
            Step::Next(Inquest { inquiry, pending, replies })
        }
    }
}

/// Finding something out changes nothing.
pub proof fn an_inquest_changes_nothing<I: Inquiry>(inquest: Inquest<I>)
    requires
        inquest.is_complete(),
    ensures
        inquest.next_request().is_question(),
{
    inquest.inquiry().asks_questions();
    assert(requests(inquest.pending@).len() == inquest.pending@.len());
}

/// The same operation once more.
pub fn copy_op(op: &Op) -> (r: Op)
    ensures
        r@ == op@,
{
    match op {
        Op::Exists(path) => Op::Exists(path.clone()),
        Op::IsDir(path) => Op::IsDir(path.clone()),
        Op::ReadText(path) => Op::ReadText(path.clone()),
        Op::ReadLink(path) => Op::ReadLink(path.clone()),
        Op::ReadEntryText(dir, raw, file) => {
            let name: Vec<u8> = raw.clone();
            assert(name@ =~= raw@);
            Op::ReadEntryText(dir.clone(), name, file.clone())
        },
        Op::ReadEntryLink(dir, raw, file) => {
            let name: Vec<u8> = raw.clone();
            assert(name@ =~= raw@);
            Op::ReadEntryLink(dir.clone(), name, file.clone())
        },
        Op::WriteText(path, content) => Op::WriteText(path.clone(), content.clone()),
        Op::ReadBytes(path, at) => Op::ReadBytes(path.clone(), *at),
        Op::WriteBytes(path, at, low, high) => Op::WriteBytes(path.clone(), *at, *low, *high),
        Op::ListDir(path) => Op::ListDir(path.clone()),
        Op::FileLen(path) => Op::FileLen(path.clone()),
        Op::StatEntry(dir, raw) => {
            let name: Vec<u8> = raw.clone();
            assert(name@ =~= raw@);
            Op::StatEntry(dir.clone(), name)
        },
        Op::MapFile(path) => Op::MapFile(path.clone()),
        Op::Read32(offset) => Op::Read32(*offset),
        Op::Write32(offset, value) => Op::Write32(*offset, *value),
        Op::StartTimer => Op::StartTimer,
        Op::Elapsed => Op::Elapsed,
        Op::Sleep(ms) => Op::Sleep(*ms),
    }
}

/// Two inquiries, the second one being what the first comes to, unless the
/// first settles the matter.
#[derive(Debug)]
pub enum Survey<I, J> {
    First(Inquest<I>),
    Second(Inquest<J>),
}

/// Whether `step` is what follows from what a first inquiry has come to.
pub open spec fn follows<I, J: Inquiry>(
    turn: Step<J, J::Output>,
    step: Step<Survey<I, J>, J::Output>,
) -> bool {
    match (turn, step) {
        (Step::Done(settled), Step::Done(output)) => output == settled,
        (Step::Next(second), Step::Done(output)) => {
            &&& second.asks().len() == 0
            &&& second.concludes(Seq::<Reply>::empty(), output)
        },
        (Step::Next(second), Step::Next(Survey::Second(inquest))) => {
            &&& second.asks().len() > 0
            &&& inquest.inquiry() == second
            &&& inquest.replies() == Seq::<Reply>::empty()
        },
        _ => false,
    }
}

impl<I, J> Survey<I, J> where J: Inquiry, I: Inquiry<Output = Step<J, <J as Inquiry>::Output>> {
    pub open spec fn is_complete(&self) -> bool {
        match *self {
            Survey::First(inquest) => inquest.is_complete(),
            Survey::Second(inquest) => inquest.is_complete(),
        }
    }

    pub open spec fn next_request(&self) -> Request {
        match *self {
            Survey::First(inquest) => inquest.next_request(),
            Survey::Second(inquest) => inquest.next_request(),
        }
    }

    /// Start with the first inquiry, there being something to ask.
    pub fn ask(inquiry: I) -> (survey: Survey<I, J>)
        requires
            inquiry.asks().len() > 0,
        ensures
            survey matches Survey::First(inquest) && inquest.inquiry() == inquiry
                && inquest.replies() == Seq::<Reply>::empty(),
            survey.well_formed(),
    {
        Survey::First(Inquest::ask(inquiry))
    }

    /// Whether `step` is where it stands once resumed with `reply`.
    pub open spec fn goes_on(
        &self,
        reply: Reply,
        step: Step<Survey<I, J>, <J as Inquiry>::Output>,
    ) -> bool {
        match *self {
            Survey::First(inquest) => {
                let replies = inquest.replies().push(reply);
                if replies.len() < inquest.inquiry().asks().len() {
                    step matches Step::Next(Survey::First(next)) && next.inquiry()
                        == inquest.inquiry() && next.replies() == replies
                } else {
                    exists|turn: Step<J, <J as Inquiry>::Output>|
                        inquest.inquiry().concludes(replies, turn) && #[trigger] follows(turn, step)
                }
            },
            Survey::Second(inquest) => {
                let replies = inquest.replies().push(reply);
                if replies.len() < inquest.inquiry().asks().len() {
                    step matches Step::Next(Survey::Second(next)) && next.inquiry()
                        == inquest.inquiry() && next.replies() == replies
                } else {
                    step matches Step::Done(output) && inquest.inquiry().concludes(replies, output)
                }
            },
        }
    }

    fn turn(turn: Step<J, <J as Inquiry>::Output>) -> (step: Step<
        Survey<I, J>,
        <J as Inquiry>::Output,
    >)
        ensures
            follows(turn, step),
            step matches Step::Next(next) ==> next.well_formed(),
    {
        match turn {
            Step::Done(output) => Step::Done(output),
            Step::Next(second) => match Inquest::start(second) {
                Step::Next(inquest) => Step::Next(Survey::Second(inquest)),
                Step::Done(output) => Step::Done(output),
            },
        }
    }
}

impl<I, J> Procedure for Survey<I, J> where
    J: Inquiry,
    I: Inquiry<Output = Step<J, <J as Inquiry>::Output>>,
 {
    type Output = <J as Inquiry>::Output;

    open spec fn well_formed(&self) -> bool {
        self.is_complete()
    }

    open spec fn request(&self) -> Request {
        self.next_request()
    }

    fn op(&self) -> (op: Op) {
        let ghost _now = (self.well_formed(), self.request());
        match self {
            Survey::First(inquest) => inquest.op(),
            Survey::Second(inquest) => inquest.op(),
        }
    }

    fn resume(self, reply: Reply) -> (step: Step<Self, Self::Output>)
        ensures
            self.goes_on(reply, step),
    {
        let ghost _now = (self.well_formed(), self.request());
        match self {
            Survey::First(inquest) => match inquest.resume(reply) {
                Step::Next(next) => Step::Next(Survey::First(next)),
                Step::Done(turn) => Self::turn(turn),
            },
            Survey::Second(inquest) => match inquest.resume(reply) {
                Step::Next(next) => Step::Next(Survey::Second(next)),
                Step::Done(output) => Step::Done(output),
            },
        }
    }
}

/// Finding something out in two goes changes nothing.
pub proof fn a_survey_changes_nothing<I, J>(survey: Survey<I, J>) where
    J: Inquiry,
    I: Inquiry<Output = Step<J, <J as Inquiry>::Output>>,

    requires
        survey.is_complete(),
    ensures
        survey.next_request().is_question(),
{
    match survey {
        Survey::First(inquest) => an_inquest_changes_nothing(inquest),
        Survey::Second(inquest) => an_inquest_changes_nothing(inquest),
    }
}

/// A survey goes through all the questions of its first inquiry, then through all
/// those of the second; it ends with what the second comes to, unless the first
/// has settled the matter, and every answer counts.
pub proof fn a_survey_asks_everything<I, J>(
    survey: Survey<I, J>,
    reply: Reply,
    step: Step<Survey<I, J>, <J as Inquiry>::Output>,
) where J: Inquiry, I: Inquiry<Output = Step<J, <J as Inquiry>::Output>>
    requires
        survey.goes_on(reply, step),
    ensures
        match (survey, step) {
            (Survey::First(now), Step::Next(Survey::First(next))) => {
                &&& now.replies().len() + 1 < now.inquiry().asks().len()
                &&& next.replies() == now.replies().push(reply)
                &&& next.inquiry() == now.inquiry()
            },
            (Survey::First(now), Step::Next(Survey::Second(next))) => {
                &&& now.replies().len() + 1 >= now.inquiry().asks().len()
                &&& next.replies().len() == 0
                &&& now.inquiry().concludes(now.replies().push(reply), Step::Next(next.inquiry()))
                &&& next.inquiry().asks().len() > 0
            },
            (Survey::First(now), Step::Done(_)) => now.replies().len() + 1
                >= now.inquiry().asks().len(),
            (Survey::Second(now), Step::Next(Survey::Second(next))) => {
                &&& now.replies().len() + 1 < now.inquiry().asks().len()
                &&& next.replies() == now.replies().push(reply)
                &&& next.inquiry() == now.inquiry()
            },
            (Survey::Second(now), Step::Done(output)) => {
                &&& now.replies().len() + 1 >= now.inquiry().asks().len()
                &&& now.inquiry().concludes(now.replies().push(reply), output)
            },
            (Survey::Second(_), Step::Next(Survey::First(_))) => false,
        },
{
}

/// Questions are asked one by one, each in its place, and answered as often.
pub proof fn questions_are_asked_one_by_one(
    ops: Seq<Op>,
    asks: Seq<Request>,
    replies: Seq<Reply>,
    i: int,
)
    ensures
        requests(ops).len() == ops.len(),
        0 <= i < ops.len() ==> requests(ops)[i] == ops[i]@,
        answered(asks, replies) ==> replies.len() == asks.len() && (0 <= i < asks.len()
            ==> replies[i].answers(asks[i])),
{
}

} // verus!
