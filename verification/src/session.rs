//! What the program is doing, and what a key does about it.

use crate::keys::{HotKey, KeyState};
use std::sync::Arc;
use vstd::prelude::*;

verus! {

/// What the program is doing. `S` is what a recording is stopped with.
pub enum State<S> {
    /// Nothing, with the last answer if there has been one.
    Idle(Option<Arc<Vec<u8>>>),
    /// Recording a phrase.
    Recording(S),
    /// Waiting for the service to answer.
    Generating,
    /// Playing the answer while it is downloaded.
    Playing,
}

/// What the program is doing, without what it is done with.
pub enum Stage {
    Idle(Option<Seq<u8>>),
    Recording,
    Generating,
    Playing,
}

/// What a key asks for.
pub enum KeyAction<'a, S> {
    /// Nothing.
    Ignore,
    /// To play this answer again.
    Replay(Vec<u8>),
    /// To start recording.
    Record,
    /// To stop the recording that this belongs to.
    Stop(&'a S),
}

/// What happens to the program in the course of a phrase.
pub enum Event {
    /// A recording was started.
    Started,
    /// The recording has been encoded.
    Encoded,
    /// The service has answered; whether it accepted the phrase.
    Answered(bool),
    /// All of the answer has been downloaded.
    Downloaded(Seq<u8>),
}

/// The stage that `event` leads to.
pub open spec fn next_stage(stage: Stage, event: Event) -> Stage {
    match event {
        Event::Started => Stage::Recording,
        Event::Encoded => Stage::Generating,
        Event::Answered(accepted) => if accepted {
            Stage::Playing
        } else {
            stage
        },
        Event::Downloaded(answer) => Stage::Idle(Some(answer)),
    }
}

/// The answer that a key plays again at `stage`, if it plays one.
pub open spec fn replayed(stage: Stage, key: HotKey, key_state: KeyState) -> Option<Seq<u8>> {
    match stage {
        Stage::Idle(answer) => if key is Replay && key_state is Pressed {
            answer
        } else {
            None
        },
        _ => None,
    }
}

/// Whether a key starts a recording at `stage`.
pub open spec fn starts(stage: Stage, key: HotKey, key_state: KeyState) -> bool {
    stage is Idle && key is Talk && key_state is Pressed
}

/// Whether a key stops a recording at `stage`.
pub open spec fn stops(stage: Stage, key: HotKey, key_state: KeyState) -> bool {
    stage is Recording && key is Talk && key_state is Released
}

impl<S> State<S> {
    /// The stage that the program is at.
    pub open spec fn view(&self) -> Stage {
        match self {
            State::Idle(Some(answer)) => Stage::Idle(Some((**answer)@)),
            State::Idle(None) => Stage::Idle(None),
            State::Recording(_) => Stage::Recording,
            State::Generating => Stage::Generating,
            State::Playing => Stage::Playing,
        }
    }

    /// A program that has done nothing yet.
    pub fn new() -> (state: State<S>)
        ensures
            state@ == Stage::Idle(None),
            state == State::<S>::Idle(None),
    {
        State::Idle(None)
    }

    /// What a key that went down or up asks for.
    pub fn on_key<'a>(&'a self, key: HotKey, key_state: KeyState) -> (action: KeyAction<'a, S>)
        ensures
            match action {
                KeyAction::Ignore => {
                    &&& replayed(self@, key, key_state) is None
                    &&& !starts(self@, key, key_state)
                    &&& !stops(self@, key, key_state)
                },
                KeyAction::Replay(answer) => replayed(self@, key, key_state) == Some(answer@),
                KeyAction::Record => starts(self@, key, key_state),
                KeyAction::Stop(handle) => {
                    &&& stops(self@, key, key_state)
                    &&& *self == State::Recording(*handle)
                },
            },
            action is Replay <==> key is Replay && key_state is Pressed && (
            *self matches State::Idle(answer) && answer is Some),
            action matches KeyAction::Replay(copy) ==> (*self matches State::Idle(Some(answer))
                && copy@ == (*answer)@),
            action is Record <==> key is Talk && key_state is Pressed && *self is Idle,
            action is Stop <==> key is Talk && key_state is Released && *self is Recording,
            key is Other ==> action is Ignore,
    {
        if key == HotKey::Replay && key_state == KeyState::Pressed {
            if let State::Idle(Some(answer)) = self {
                let copy: Vec<u8> = (**answer).clone();
                assert(copy@ == (**answer)@);
                return KeyAction::Replay(copy);
            }
        }
        if key == HotKey::Talk {
            if key_state == KeyState::Pressed {
                if let State::Idle(_) = self {
                    return KeyAction::Record;
                }
            } else {
                if let State::Recording(handle) = self {
                    return KeyAction::Stop(handle);
                }
            }
        }
        KeyAction::Ignore
    }

    /// A recording was started, which `handle` stops.
    pub fn on_started(&mut self, handle: S)
        ensures
            *final(self) == State::Recording(handle),
            final(self)@ == next_stage(old(self)@, Event::Started),
    {
        *self = State::Recording(handle);
    }

    /// The recording has been encoded and is sent to the service.
    pub fn on_encoded(&mut self)
        ensures
            final(self)@ == next_stage(old(self)@, Event::Encoded),
            *final(self) is Generating,
    {
        *self = State::Generating;
    }

    /// The service has answered. Returns whether there is an answer to download.
    pub fn on_answered(&mut self, accepted: bool) -> (download: bool)
        ensures
            download == accepted,
            final(self)@ == next_stage(old(self)@, Event::Answered(accepted)),
            accepted ==> *final(self) is Playing,
            !accepted ==> *final(self) == *old(self),
    {
        if accepted {
            *self = State::Playing;
        }
        accepted
    }

    /// All of the answer has been downloaded.
    pub fn on_downloaded(&mut self, answer: Vec<u8>)
        ensures
            final(self)@ == next_stage(old(self)@, Event::Downloaded(answer@)),
            *final(self) matches State::Idle(Some(kept)) && (*kept)@ == answer@,
    {
        *self = State::Idle(Some(Arc::new(answer)));
    }
}

/// The stage that `events` lead to, one after the other.
pub open spec fn stage_after(stage: Stage, events: Seq<Event>) -> Stage
    decreases events.len(),
{
    if events.len() == 0 {
        stage
    } else {
        next_stage(stage_after(stage, events.drop_last()), events.last())
    }
}

/// A key asks for one thing at most.
pub proof fn key_asks_for_one_thing(stage: Stage, key: HotKey, key_state: KeyState)
    ensures
        !(starts(stage, key, key_state) && stops(stage, key, key_state)),
        replayed(stage, key, key_state) is Some ==> !starts(stage, key, key_state) && !stops(
            stage,
            key,
            key_state,
        ),
{
}

/// One phrase at a time: while a phrase is recorded, sent or answered no key
/// starts another recording or plays an answer again.
pub proof fn one_phrase_at_a_time(stage: Stage, key: HotKey, key_state: KeyState)
    requires
        stage !is Idle,
    ensures
        !starts(stage, key, key_state),
        replayed(stage, key, key_state) is None,
{
}

/// A recording that the talk key has started is stopped by letting go of it, and
/// by nothing else.
pub proof fn held_to_talk(stage: Stage, key: HotKey, key_state: KeyState)
    requires
        starts(stage, HotKey::Talk, KeyState::Pressed),
    ensures
        stops(next_stage(stage, Event::Started), key, key_state) <==> key is Talk
            && key_state is Released,
{
}

/// A phrase that the service accepts leaves the program idle with its answer,
/// whatever answer there was before, and the replay key then plays exactly that.
pub proof fn last_answer_replayed(stage: Stage, answer: Seq<u8>)
    ensures
        stage_after(
            stage,
            seq![
                Event::Started,
                Event::Encoded,
                Event::Answered(true),
                Event::Downloaded(answer),
            ],
        ) == Stage::Idle(Some(answer)),
        replayed(
            stage_after(
                stage,
                seq![
                    Event::Started,
                    Event::Encoded,
                    Event::Answered(true),
                    Event::Downloaded(answer),
                ],
            ),
            HotKey::Replay,
            KeyState::Pressed,
        ) == Some(answer),
{
}

/// A phrase that the service refuses is never over: the program stays where it
/// waited for an answer, where no key has any effect.
pub proof fn refused_phrase_stays(stage: Stage, key: HotKey, key_state: KeyState)
    ensures
        ({
            let refused = stage_after(
                stage,
                seq![Event::Started, Event::Encoded, Event::Answered(false)],
            );
            &&& refused is Generating
            &&& replayed(refused, key, key_state) is None
            &&& !starts(refused, key, key_state)
            &&& !stops(refused, key, key_state)
        }),
{
    reveal_with_fuel(stage_after, 4);
}

/// The answer that a program has which was busy before is what the last download
/// brought; after it the service can only have refused phrases.
pub proof fn answer_is_last_download(stage: Stage, events: Seq<Event>, answer: Seq<u8>)
    requires
        stage !is Idle,
        stage_after(stage, events) == Stage::Idle(Some(answer)),
    ensures
        exists|i: int|
            {
                &&& 0 <= i < events.len()
                &&& #[trigger] events[i] == Event::Downloaded(answer)
                &&& forall|j: int| i < j < events.len() ==> events[j] == Event::Answered(false)
            },
    decreases events.len(),
{
    if events.len() > 0 {
        if events.last() is Downloaded {
            assert(events[events.len() - 1] == Event::Downloaded(answer));
        } else {
            let earlier = events.drop_last();
            answer_is_last_download(stage, earlier, answer);
            let i = choose|i: int|
                {
                    &&& 0 <= i < earlier.len()
                    &&& #[trigger] earlier[i] == Event::Downloaded(answer)
                    &&& forall|j: int|
                        i < j < earlier.len() ==> earlier[j] == Event::Answered(false)
                };
            assert(events[i] == Event::Downloaded(answer));
            assert forall|j: int| i < j < events.len() implies events[j] == Event::Answered(
                false,
            ) by {
                if j < earlier.len() {
                    assert(events[j] == earlier[j]);
                }
            }
        }
    }
}

/// Keys other than the two hot keys do nothing at any stage.
pub proof fn other_keys_do_nothing(stage: Stage, key_state: KeyState)
    ensures
        replayed(stage, HotKey::Other, key_state) is None,
        !starts(stage, HotKey::Other, key_state),
        !stops(stage, HotKey::Other, key_state),
{
}

/// An answer is played again only by the replay key going down while the program is
/// idle, and it is then the answer that it is idle with.
pub proof fn only_replay_key_replays(stage: Stage, key: HotKey, key_state: KeyState)
    ensures
        replayed(stage, key, key_state) is Some ==> key is Replay && key_state is Pressed,
        replayed(stage, key, key_state) is Some <==> key is Replay && key_state is Pressed && (
        stage matches Stage::Idle(answer) && answer is Some),
        replayed(stage, key, key_state) matches Some(copy) ==> stage == Stage::Idle(Some(copy)),
{
}

/// Only the talk key starts and stops recordings: it starts one by going down while
/// the program is idle, and stops one by going up while it records.
pub proof fn only_talk_key_records(stage: Stage, key: HotKey, key_state: KeyState)
    ensures
        starts(stage, key, key_state) <==> key is Talk && key_state is Pressed && stage is Idle,
        stops(stage, key, key_state) <==> key is Talk && key_state is Released
            && stage is Recording,
{
}

/// Each event leads to its own stage, whatever the stage before; only a refused
/// phrase leaves the stage as it was.
pub proof fn events_lead_on(stage: Stage, answer: Seq<u8>)
    ensures
        next_stage(stage, Event::Started) is Recording,
        next_stage(stage, Event::Encoded) is Generating,
        next_stage(stage, Event::Answered(true)) is Playing,
        next_stage(stage, Event::Answered(false)) == stage,
        next_stage(stage, Event::Downloaded(answer)) == Stage::Idle(Some(answer)),
{
}

/// Events take effect one after the other: none leave the stage as it is, and each
/// acts on the stage that those before it have led to.
pub proof fn events_in_turn(stage: Stage, first: Seq<Event>, second: Seq<Event>)
    ensures
        stage_after(stage, Seq::empty()) == stage,
        stage_after(stage, first + second) == stage_after(stage_after(stage, first), second),
    decreases second.len(),
{
    if second.len() == 0 {
        assert(first + second == first);
    } else {
        events_in_turn(stage, first, second.drop_last());
        assert((first + second).drop_last() == first + second.drop_last());
    }
}

/// The stage tells the states apart, and an idle stage has the state's answer.
pub proof fn stage_of_state<S>(state: State<S>)
    ensures
        state@ is Idle <==> state is Idle,
        state@ is Recording <==> state is Recording,
        state@ is Generating <==> state is Generating,
        state@ is Playing <==> state is Playing,
        state matches State::Idle(Some(answer)) ==> state@ == Stage::Idle(Some((*answer)@)),
        state matches State::Idle(None) ==> state@ == Stage::Idle(None),
{
}

} // verus!
