//! The event dispatch loop as a state machine: one input at a time is
//! classified and routed to the key binding table or the handler registry,
//! until the connection reports an error.

use vstd::prelude::*;
use crate::bindings::{key_grabs, KeyTable};
use crate::handlers::HandlerRegistry;
use crate::keymap::Layout;
use crate::protocol::{
    IncomingEvent,
    Request,
    BUTTON_EVENT_MASK,
    KEY_PRESS_EVENT,
    MOD_4,
    MOVE_BUTTON,
    RESIZE_BUTTON,
    ROOT_EVENT_MASK,
};

verus! {

/// The state of the dispatch loop.
#[derive(Debug, Clone, Copy, PartialEq, Eq)]
pub enum LoopState {
    /// The loop waits for the next input.
    Running,
    /// The connection failed: the loop has ended and handles nothing more.
    Stopped,
}

/// What one blocking wait on the connection yields.
#[derive(Debug, Clone, Copy, PartialEq, Eq)]
pub enum Input {
    /// One event.
    Event(IncomingEvent),
    /// The connection is lost.
    ConnectionError,
}

/// What the caller does for one event.
#[derive(Debug, Clone, Copy, PartialEq, Eq)]
pub enum Effect {
    /// Invoke, once, the action of the binding at this index of the table.
    InvokeAction { binding: usize },
    /// A key press that no binding matches: nothing is invoked.
    NoBinding,
    /// Invoke the handler of the entry at this index of the registry.
    InvokeHandler { entry: usize },
    /// An event whose tag has no handler: nothing is invoked.
    Unhandled { event_tag: u8 },
}

/// What a scripted run of the loop did.
pub struct Trace {
    /// The effect of each event that was handled, in the order of the inputs.
    pub effects: Vec<Effect>,
    /// The state in which the run ended.
    pub state: LoopState,
}

/// The key binding table and the handler registry that the loop routes to.
pub struct WindowManager<A, H> {
    pub keys: KeyTable<A>,
    pub handlers: HandlerRegistry<H>,
}

/// The end of the startup requests: the grabs of the two pointer buttons
/// under Mod4, then a flush.
pub open spec fn button_grabs() -> Seq<Request> {
    seq![
        Request::GrabButton {
            button: MOVE_BUTTON,
            modifiers: MOD_4,
            event_mask: BUTTON_EVENT_MASK,
        },
        Request::GrabButton {
            button: RESIZE_BUTTON,
            modifiers: MOD_4,
            event_mask: BUTTON_EVENT_MASK,
        },
        Request::Flush,
    ]
}

impl<A, H> WindowManager<A, H> {
    /// Where an event goes: a key press to the first binding that has exactly
    /// its modifier state and the keysym of its keycode, any other event to
    /// the handler of its tag.
    pub open spec fn spec_route(&self, layout: Layout, event: IncomingEvent) -> Effect {
        if event.event_tag == KEY_PRESS_EVENT {
            match self.keys.spec_find(event.state, layout.symbol_at(event.keycode)) {
                Some(i) => Effect::InvokeAction { binding: i as usize },
                None => Effect::NoBinding,
            }
        } else {
            match self.handlers.spec_find(event.event_tag) {
                Some(i) => Effect::InvokeHandler { entry: i as usize },
                None => Effect::Unhandled { event_tag: event.event_tag },
            }
        }
    }

    /// One transition of the loop: a stopped loop stays stopped, a connection
    /// error stops it, and an event is routed while the loop goes on.
    pub open spec fn spec_step(&self, layout: Layout, state: LoopState, input: Input) -> (
        LoopState,
        Option<Effect>,
    ) {
        match (state, input) {
            (LoopState::Stopped, _) => (LoopState::Stopped, None),
            (LoopState::Running, Input::ConnectionError) => (LoopState::Stopped, None),
            (LoopState::Running, Input::Event(event)) => (
                LoopState::Running,
                Some(self.spec_route(layout, event)),
            ),
        }
    }

    /// The loop over a whole script, from `state`: the state it ends in and
    /// the effects of the events it handled, in the order of the inputs.
    pub open spec fn spec_run(&self, layout: Layout, state: LoopState, inputs: Seq<Input>) -> (
        LoopState,
        Seq<Effect>,
    )
        decreases inputs.len(),
    {
        if inputs.len() == 0 {
            (state, Seq::empty())
        } else {
            let before = self.spec_run(layout, state, inputs.drop_last());
            let last = self.spec_step(layout, before.0, inputs.last());
            match last.1 {
                Some(effect) => (last.0, before.1.push(effect)),
                None => (last.0, before.1),
            }
        }
    }

    /// A window manager over the given tables.
    pub fn new(keys: KeyTable<A>, handlers: HandlerRegistry<H>) -> (r: WindowManager<A, H>)
        ensures
            r.keys == keys,
            r.handlers == handlers,
    {
        WindowManager { keys, handlers }
    }

    /// Everything that is sent to the server before the loop starts: the
    /// subscription of the root window, the release of stale key grabs, one
    /// key grab for each binding whose symbol resolves, a flush, the two
    /// pointer button grabs and a last flush.
    pub fn startup_requests(&self, layout: &Layout) -> (r: Vec<Request>)
        requires
            layout.wf(),
        ensures
            r@ == seq![
                Request::ChangeRootEventMask { event_mask: ROOT_EVENT_MASK },
                Request::UngrabAllKeys,
            ] + key_grabs(self.keys@, *layout) + seq![Request::Flush] + button_grabs(),
    {
        let mut out: Vec<Request> = Vec::new();
        out.push(Request::ChangeRootEventMask { event_mask: ROOT_EVENT_MASK });
        let mut grabs = self.keys.grab_requests(layout);
        out.append(&mut grabs);
        out.push(Request::Flush);
        out.push(
            Request::GrabButton {
                button: MOVE_BUTTON,
                modifiers: MOD_4,
                event_mask: BUTTON_EVENT_MASK,
            },
        );
        out.push(
            Request::GrabButton {
                button: RESIZE_BUTTON,
                modifiers: MOD_4,
                event_mask: BUTTON_EVENT_MASK,
            },
        );
        out.push(Request::Flush);
        proof {
            assert(out@ =~= seq![
                Request::ChangeRootEventMask { event_mask: ROOT_EVENT_MASK },
                Request::UngrabAllKeys,
            ] + key_grabs(self.keys@, *layout) + seq![Request::Flush] + button_grabs());
        }
        out
    }

    /// Classifies one event and says what to invoke for it.
    pub fn route(&self, layout: &Layout, event: &IncomingEvent) -> (r: Effect)
        requires
            layout.wf(),
        ensures
            r == self.spec_route(*layout, *event),
            match r {
                Effect::InvokeAction { binding } => event.event_tag == KEY_PRESS_EVENT
                    && self.keys.first_match(
                    binding as int,
                    event.state,
                    layout.symbol_at(event.keycode),
                ),
                Effect::NoBinding => event.event_tag == KEY_PRESS_EVENT && forall|j: int|
                    !self.keys.matches_at(j, event.state, layout.symbol_at(event.keycode)),
                Effect::InvokeHandler { entry } => event.event_tag != KEY_PRESS_EVENT
                    && self.handlers.first_for(entry as int, event.event_tag),
                Effect::Unhandled { event_tag } => event.event_tag != KEY_PRESS_EVENT
                    && event_tag == event.event_tag && !self.handlers.handles(event_tag),
            },
    {
        if event.event_tag == KEY_PRESS_EVENT {
            let symbol: u32 = layout.keycode_to_keysym(event.keycode);
            match self.keys.find(event.state, symbol) {
                Some(binding) => Effect::InvokeAction { binding },
                None => Effect::NoBinding,
            }
        } else {
            match self.handlers.find(event.event_tag) {
                Some(entry) => Effect::InvokeHandler { entry },
                None => Effect::Unhandled { event_tag: event.event_tag },
            }
        }
    }

    /// One iteration of the loop: from the state and what the wait yielded to
    /// the next state and what to invoke.
    pub fn step(&self, layout: &Layout, state: LoopState, input: &Input) -> (r: (
        LoopState,
        Option<Effect>,
    ))
        requires
            layout.wf(),
        ensures
            r == self.spec_step(*layout, state, *input),
    {
        match state {
            LoopState::Stopped => (LoopState::Stopped, None),
            LoopState::Running => match input {
                Input::ConnectionError => (LoopState::Stopped, None),
                Input::Event(event) => (LoopState::Running, Some(self.route(layout, event))),
            },
        }
    }

    /// Runs the loop over a script of inputs, from `Running`. Every event
    /// before the first connection error is handled, in order, and nothing
    /// after it; the run ends `Stopped` exactly when the script holds an
    /// error.
    pub fn run(&self, layout: &Layout, inputs: &Vec<Input>) -> (r: Trace)
        requires
            layout.wf(),
        ensures
            (r.state, r.effects@) == self.spec_run(*layout, LoopState::Running, inputs@),
            r.effects@.len() <= inputs@.len(),
            forall|i: int|
                0 <= i < r.effects@.len() ==> self.spec_step(
                    *layout,
                    LoopState::Running,
                    inputs@[i],
                ) == (LoopState::Running, Some(r.effects@[i])),
            r.effects@.len() < inputs@.len() ==> inputs@[r.effects@.len() as int]
                == Input::ConnectionError,
            r.state == LoopState::Stopped <==> r.effects@.len() < inputs@.len(),
            r.state == LoopState::Running <==> r.effects@.len() == inputs@.len(),
    {
        let mut effects: Vec<Effect> = Vec::new();
        let mut state = LoopState::Running;
        let mut i: usize = 0;
        while i < inputs.len()
            invariant
                layout.wf(),
                i <= inputs@.len(),
                state == LoopState::Running,
                effects@.len() == i,
                (state, effects@) == self.spec_run(
                    *layout,
                    LoopState::Running,
                    inputs@.take(i as int),
                ),
                forall|k: int|
                    0 <= k < i ==> self.spec_step(*layout, LoopState::Running, inputs@[k]) == (
                        LoopState::Running,
                        Some(effects@[k]),
                    ),
            decreases inputs@.len() - i,
        {
            let (next, effect) = self.step(layout, state, &inputs[i]);
            proof {
                let upto = inputs@.take(i as int + 1);
                assert(upto.drop_last() =~= inputs@.take(i as int));
                assert(upto.last() == inputs@[i as int]);
            }
            match effect {
                Some(e) => {
                    effects.push(e);
                },
                None => {},
            }
            match next {
                LoopState::Stopped => {
                    proof {
                        self.lemma_stopped_stays(*layout, inputs@, i as int + 1);
                    }
                    return Trace { effects, state: LoopState::Stopped };
                },
                LoopState::Running => {},
            }
            state = next;
            i += 1;
        }
        proof {
            assert(inputs@.take(inputs@.len() as int) =~= inputs@);
        }
        Trace { effects, state }
    }

    /// Once the loop has stopped, the rest of the script changes nothing:
    /// no later input is handled and the loop never runs again.
    pub proof fn lemma_stopped_stays(&self, layout: Layout, inputs: Seq<Input>, n: int)
        requires
            0 <= n <= inputs.len(),
            self.spec_run(layout, LoopState::Running, inputs.take(n)).0 == LoopState::Stopped,
        ensures
            self.spec_run(layout, LoopState::Running, inputs) == self.spec_run(
                layout,
                LoopState::Running,
                inputs.take(n),
            ),
        decreases inputs.len(),
    {
        if n == inputs.len() {
            assert(inputs.take(n) =~= inputs);
        } else {
            assert(inputs.drop_last().take(n) =~= inputs.take(n));
            self.lemma_stopped_stays(layout, inputs.drop_last(), n);
        }
    }

    /// A script without a connection error never stops the loop: every input
    /// is handled, in order, and the loop is still running at its end.
    pub proof fn lemma_runs_until_error(&self, layout: Layout, inputs: Seq<Input>)
        requires
            forall|i: int| 0 <= i < inputs.len() ==> inputs[i] != Input::ConnectionError,
        ensures
            self.spec_run(layout, LoopState::Running, inputs).0 == LoopState::Running,
            self.spec_run(layout, LoopState::Running, inputs).1.len() == inputs.len(),
            forall|i: int|
                0 <= i < inputs.len() ==> self.spec_step(layout, LoopState::Running, inputs[i])
                    == (
                    LoopState::Running,
                    Some(#[trigger] self.spec_run(layout, LoopState::Running, inputs).1[i]),
                ),
        decreases inputs.len(),
    {
        if inputs.len() > 0 {
            let shorter = inputs.drop_last();
            self.lemma_runs_until_error(layout, shorter);
            let before = self.spec_run(layout, LoopState::Running, shorter);
            let all = self.spec_run(layout, LoopState::Running, inputs);
            assert(inputs.last() != Input::ConnectionError);
            assert forall|i: int| 0 <= i < inputs.len() implies self.spec_step(
                layout,
                LoopState::Running,
                inputs[i],
            ) == (LoopState::Running, Some(#[trigger] all.1[i])) by {
                if i < shorter.len() {
                    assert(shorter[i] == inputs[i]);
                    assert(all.1[i] == before.1[i]);
                }
            }
        }
    }

    /// A connection error ends the loop at once: only the events before the
    /// first error are handled, one effect each, and the loop is stopped.
    pub proof fn lemma_error_stops(&self, layout: Layout, inputs: Seq<Input>, n: int)
        requires
            0 <= n < inputs.len(),
            inputs[n] == Input::ConnectionError,
            forall|i: int| 0 <= i < n ==> inputs[i] != Input::ConnectionError,
        ensures
            self.spec_run(layout, LoopState::Running, inputs).0 == LoopState::Stopped,
            self.spec_run(layout, LoopState::Running, inputs).1 == self.spec_run(
                layout,
                LoopState::Running,
                inputs.take(n),
            ).1,
            self.spec_run(layout, LoopState::Running, inputs).1.len() == n,
    {
        let before = inputs.take(n);
        let upto = inputs.take(n + 1);
        self.lemma_runs_until_error(layout, before);
        assert(upto.drop_last() =~= before);
        assert(upto.last() == inputs[n]);
        self.lemma_stopped_stays(layout, inputs, n + 1);
    }
}

} // verus!
