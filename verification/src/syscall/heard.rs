//! What a session makes of the answers that it gets.
use vstd::prelude::*;

use super::abi::Status;
use super::kernel::{extends, Answer, Ask, Call, Event, Kernel, Session};

verus! {

impl Event {
    /// What a session makes of this event: an answer that does not fit what was asked is a
    /// refusal.
    pub open spec fn heard(self) -> Event {
        match (self.ask, self.answer) {
            (
                Ask::Plain(Call::CopyIn { length, .. }),
                Answer::Bytes(Ok(bytes)),
            ) => if bytes.len() == length {
                self
            } else {
                Event { answer: Answer::Bytes(Err(Status::InvalidAddress)), ..self }
            },
            (Ask::Poll(items), Answer::Poll(Ok((_, found)))) => if found.len() == items.len() {
                self
            } else {
                Event { answer: Answer::Poll(Err(Status::InvalidMessage)), ..self }
            },
            _ => self,
        }
    }
}

/// No thread was told the status of a system call since.
pub open spec fn told_nobody(before: Seq<Event>, after: Seq<Event>) -> bool {
    forall|j: int| before.len() <= j < after.len() ==> !(#[trigger] after[j]).ask.tells()
}

impl Ask {
    /// A thread is told the status of a system call.
    pub open spec fn tells(self) -> bool {
        self matches Ask::Plain(Call::SetReturn { .. })
    }
}

/// Asked what these events ask, one after the other, a kernel answered what was heard in them,
/// and is `after` then.
pub open spec fn heard_along<K: Kernel>(before: K, events: Seq<Event>, after: K) -> bool
    decreases events.len(),
{
    if events.len() == 0 {
        before == after
    } else {
        exists|middle: K, said: Event| #[trigger]
            K::answers(middle, said, after) && said.heard() == events.last() && heard_along(
                before,
                events.drop_last(),
                middle,
            )
    }
}

impl<K: Kernel> Session<K> {
    /// What the log has more than before was asked of the kernel, and answered by it.
    #[verifier::opaque]
    pub open spec fn heard_from(&self, before: Self) -> bool {
        &&& extends(before.log@, self.log@)
        &&& heard_along(
            before.kernel,
            self.log@.skip(before.log@.len() as int),
            self.kernel,
        )
    }
}

/// What was heard first and what was heard then, together.
proof fn lemma_heard_along<K: Kernel>(
    before: K,
    first: Seq<Event>,
    middle: K,
    second: Seq<Event>,
    after: K,
)
    requires
        heard_along(before, first, middle),
        heard_along(middle, second, after),
    ensures
        heard_along(before, first + second, after),
    decreases second.len(),
{
    let all = first + second;
    if second.len() == 0 {
        assert(all =~= first);
    } else {
        let (last, said) = choose|last: K, said: Event| #[trigger]
            K::answers(last, said, after) && said.heard() == second.last() && heard_along(
                middle,
                second.drop_last(),
                last,
            );
        lemma_heard_along(before, first, middle, second.drop_last(), last);
        assert(all.drop_last() =~= first + second.drop_last());
        assert(all.last() == second.last());
        assert(K::answers(last, said, after));
    }
}

/// Where nothing was asked, nothing was heard.
pub broadcast proof fn lemma_heard_nothing<K: Kernel>(session: Session<K>)
    ensures
        #[trigger] session.heard_from(session),
{
    reveal(Session::heard_from);
    assert(session.log@.skip(session.log@.len() as int).len() == 0);
}

/// One question is one event.
pub broadcast proof fn lemma_heard_once<K: Kernel>(
    before: Session<K>,
    after: Session<K>,
    event: Event,
)
    requires
        #[trigger] after.logged(before, event),
    ensures
        after.heard_from(before),
{
    reveal(Session::heard_from);
    let more = after.log@.skip(before.log@.len() as int);
    let said = choose|said: Event| #[trigger]
        K::answers(before.kernel, said, after.kernel) && said.heard() == event;
    assert(more =~= seq![event]);
    assert(more.drop_last().len() == 0);
    assert(heard_along(before.kernel, more.drop_last(), before.kernel));
    assert(K::answers(before.kernel, said, after.kernel));
}

/// What was heard up to a moment and after it was heard in all.
pub broadcast proof fn lemma_heard_on<K: Kernel>(
    first: Session<K>,
    middle: Session<K>,
    last: Session<K>,
)
    requires
        #[trigger] middle.heard_from(first),
        #[trigger] last.heard_from(middle),
    ensures
        last.heard_from(first),
{
    reveal(Session::heard_from);
    let early = middle.log@.skip(first.log@.len() as int);
    let late = last.log@.skip(middle.log@.len() as int);
    let all = last.log@.skip(first.log@.len() as int);
    assert(all =~= early + late) by {
        assert forall|i: int| 0 <= i < early.len() implies all[i] == early[i] by {
            assert(last.log@[first.log@.len() + i] == middle.log@[first.log@.len() + i]);
        }
    }
    lemma_heard_along(first.kernel, early, middle.kernel, late, last.kernel);
    assert(extends(first.log@, last.log@)) by {
        assert forall|j: int| 0 <= j < first.log@.len() implies #[trigger] last.log@[j]
            == first.log@[j] by {
            assert(middle.log@[j] == first.log@[j]);
            assert(last.log@[j] == middle.log@[j]);
        }
    }
}

pub broadcast group group_heard {
    lemma_heard_nothing,
    lemma_heard_once,
    lemma_heard_on,
}

} // verus!
