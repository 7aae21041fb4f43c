//! The data model of the host I/O boundary. The interpreter never performs
//! I/O: a host hands it pending input lines and, for LOAD, the persisted
//! program text, and the interpreter records everything it would emit as an
//! ordered list of output events for the host to act on.

use vstd::prelude::*;

verus! {

/// One thing the interpreter asks the host to do, in order.
#[derive(Debug, PartialEq)]
pub enum OutputEvent {
    /// Show this text followed by a line break.
    Line(String),
    /// Show this input prompt.
    Prompt(String),
    /// Clear the display surface.
    ClearScreen,
    /// Persist this serialized program text.
    Save(String),
}

/// The mathematical view of an output event.
pub enum EventV {
    Line(Seq<char>),
    Prompt(Seq<char>),
    ClearScreen,
    Save(Seq<char>),
}

impl View for OutputEvent {
    type V = EventV;

    open spec fn view(&self) -> EventV {
        match self {
            OutputEvent::Line(t) => EventV::Line(t@),
            OutputEvent::Prompt(t) => EventV::Prompt(t@),
            OutputEvent::ClearScreen => EventV::ClearScreen,
            OutputEvent::Save(t) => EventV::Save(t@),
        }
    }
}

/// The I/O state of one interaction with the interpreter.
pub struct IoBuffer {
    /// Input lines available to INPUT, in order; `next_input` of them are
    /// already consumed.
    pub inputs: Vec<String>,
    /// How many of `inputs` have been consumed.
    pub next_input: usize,
    /// The persisted program text available to LOAD, if any.
    pub load_text: Option<String>,
    /// What the interpreter emitted, oldest first.
    pub output: Vec<OutputEvent>,
}

/// The mathematical view of the I/O state.
#[verifier::ext_equal]
pub struct IoV {
    pub inputs: Seq<Seq<char>>,
    pub next_input: int,
    pub load_text: Option<Seq<char>>,
    pub output: Seq<EventV>,
}

impl View for IoBuffer {
    type V = IoV;

    open spec fn view(&self) -> IoV {
        IoV {
            inputs: self.inputs@.map_values(|s: String| s@),
            next_input: self.next_input as int,
            load_text: match &self.load_text {
                Option::Some(t) => Option::Some(t@),
                Option::None => Option::None,
            },
            output: self.output@.map_values(|e: OutputEvent| e@),
        }
    }
}

impl IoBuffer {
    /// An I/O state with nothing pending and nothing emitted.
    pub fn new() -> (r: IoBuffer)
        ensures
            r@.inputs == Seq::<Seq<char>>::empty(),
            r@.next_input == 0,
            r@.load_text is None,
            r@.output == Seq::<EventV>::empty(),
    {
        let r = IoBuffer {
            inputs: Vec::new(),
            next_input: 0,
            load_text: Option::None,
            output: Vec::new(),
        };
        proof {
            assert(r@.inputs =~= Seq::<Seq<char>>::empty());
            assert(r@.output =~= Seq::<EventV>::empty());
        }
        r
    }

    /// Queues one line of input for INPUT to consume.
    pub fn push_input(&mut self, line: String)
        ensures
            final(self)@ == (IoV { inputs: old(self)@.inputs.push(line@), ..old(self)@ }),
    {
        self.inputs.push(line);
        proof {
            assert(self@.inputs =~= old(self)@.inputs.push(self.inputs@.last()@));
            assert(self@.output =~= old(self)@.output);
        }
    }
}

} // verus!
