//! The machine: a program counter, an accumulator and a hundred cells of
//! memory that hold the program and its data alike.
//!
//! [`Cpu`] is the machine by itself: one step takes the value that an input
//! instruction would read and gives the value that an output instruction
//! writes. [`LMC`] joins it to an [`InputProvider`] and runs it: an input
//! instruction calls the provider for a value, an output instruction hands it
//! the accumulator, and nothing else calls it.
//!
//! The accumulator and the cells are signed 16-bit numbers, and sums and
//! differences wrap round. The program counter does not wrap: a program that
//! runs past the last cell fails with [`Error::CounterOutOfRange`]. A failed
//! step leaves the machine as it was, so that the place of the failure can be
//! looked at. The machine knows no limit of steps; [`LMC::run`] takes one from
//! its caller, who may call it again.

use vstd::prelude::*;

use crate::error::Error;
use crate::isa::{decode, decode_spec, Operation, MEMORY_SIZE};

verus! {

/// A call on an [`InputProvider`].
#[derive(Debug, Clone, Copy, PartialEq, Eq, Structural)]
pub enum Traffic {
    /// A call for input, with what the provider gave.
    Given(Option<i16>),
    /// A call with a value that the program wrote.
    Taken(i16),
}

/// What a provider gave in its calls for input, the oldest call first.
pub open spec fn given(traffic: Seq<Traffic>) -> Seq<Option<i16>>
    decreases traffic.len(),
{
    if traffic.len() == 0 {
        Seq::empty()
    } else {
        match traffic.last() {
            Traffic::Given(value) => given(traffic.drop_last()).push(value),
            Traffic::Taken(_) => given(traffic.drop_last()),
        }
    }
}

/// The values that a provider took, the oldest first.
pub open spec fn written(traffic: Seq<Traffic>) -> Seq<i16>
    decreases traffic.len(),
{
    if traffic.len() == 0 {
        Seq::empty()
    } else {
        match traffic.last() {
            Traffic::Given(_) => written(traffic.drop_last()),
            Traffic::Taken(value) => written(traffic.drop_last()).push(value),
        }
    }
}

/// The model of the machine that contracts speak of.
pub struct State {
    /// The cell that the next instruction is fetched from.
    pub pc: nat,
    pub accumulator: i16,
    pub memory: Seq<i16>,
    /// Whether the machine has come to rest. A halted machine stays as it is.
    pub halted: bool,
}

impl State {
    /// The machine as it starts on a memory image.
    pub open spec fn start(memory: Seq<i16>) -> State {
        State { pc: 0, accumulator: 0, memory, halted: false }
    }

    /// The instruction that the program counter points at.
    ///
    /// Fails with [`Error::CounterOutOfRange`] where the counter has run past the
    /// last cell, and with [`Error::InvalidOpcode`] where the cell is no
    /// instruction.
    pub open spec fn fetch(self) -> Result<Operation, Error> {
        if self.pc >= MEMORY_SIZE {
            Err(Error::CounterOutOfRange { pc: self.pc as usize })
        } else {
            match decode_spec(self.memory[self.pc as int]) {
                Some(operation) => Ok(operation),
                None => Err(
                    Error::InvalidOpcode {
                        address: self.pc as usize,
                        cell: self.memory[self.pc as int],
                    },
                ),
            }
        }
    }

    /// Whether the next step reads a value.
    pub open spec fn wants_input(self) -> bool {
        !self.halted && self.fetch() == Ok::<Operation, Error>(Operation::Inp)
    }

    /// The value that the next step writes, if it writes one.
    pub open spec fn output(self) -> Option<i16> {
        if !self.halted && self.fetch() == Ok::<Operation, Error>(Operation::Out) {
            Some(self.accumulator)
        } else {
            None
        }
    }

    /// The calls on the provider that the next step makes when the provider
    /// gives `input`: one call for input if the step reads, one call with the
    /// accumulator if it writes, and none otherwise.
    pub open spec fn calls(self, input: Option<i16>) -> Seq<Traffic> {
        if self.wants_input() {
            seq![Traffic::Given(input)]
        } else {
            match self.output() {
                Some(value) => seq![Traffic::Taken(value)],
                None => Seq::empty(),
            }
        }
    }

    /// The machine after one step, in which an input instruction reads `input`.
    ///
    /// A halted machine stays as it is. Otherwise the instruction at the
    /// program counter is fetched, the counter moves on by one, and the
    /// instruction is executed. Sums and differences wrap round at sixteen bits.
    /// The step fails, and the machine stays as it is, where the fetch fails,
    /// and with [`Error::NoInput`] where the instruction reads and `input` is
    /// `None`.
    pub open spec fn step(self, input: Option<i16>) -> Result<State, Error> {
        if self.halted {
            Ok(self)
        } else {
            match self.fetch() {
                Err(e) => Err(e),
                Ok(operation) => {
                    let next = State { pc: self.pc + 1, ..self };
                    match operation {
                        Operation::Hlt => Ok(State { halted: true, ..next }),
                        Operation::Add(a) => Ok(
                            State {
                                accumulator: self.accumulator.wrapping_add(self.memory[a as int]),
                                ..next
                            },
                        ),
                        Operation::Sub(a) => Ok(
                            State {
                                accumulator: self.accumulator.wrapping_sub(self.memory[a as int]),
                                ..next
                            },
                        ),
                        Operation::Sta(a) => Ok(
                            State { memory: self.memory.update(a as int, self.accumulator), ..next },
                        ),
                        Operation::Lda(a) => Ok(State { accumulator: self.memory[a as int], ..next }),
                        Operation::Bra(a) => Ok(State { pc: a as nat, ..next }),
                        Operation::Brz(a) => if self.accumulator == 0 {
                            Ok(State { pc: a as nat, ..next })
                        } else {
                            Ok(next)
                        },
                        Operation::Brp(a) => if self.accumulator >= 0 {
                            Ok(State { pc: a as nat, ..next })
                        } else {
                            Ok(next)
                        },
                        Operation::Inp => match input {
                            Some(value) => Ok(State { accumulator: value, ..next }),
                            None => Err(Error::NoInput { address: self.pc as usize }),
                        },
                        Operation::Out => Ok(next),
                    }
                },
            }
        }
    }
}

/// A machine together with a record of its steps' traffic with the provider.
pub struct Trace {
    pub state: State,
    /// The values read, the oldest first.
    pub consumed: Seq<i16>,
    /// The calls made on the provider, the oldest first.
    pub traffic: Seq<Traffic>,
}

impl Trace {
    /// A machine at its start, with no traffic yet.
    pub open spec fn start(memory: Seq<i16>) -> Trace {
        Trace { state: State::start(memory), consumed: Seq::empty(), traffic: Seq::empty() }
    }

    /// The trace after one step of the machine, `input` being what the provider
    /// gives if the step reads. The calls of the step go on record.
    pub open spec fn step(self, input: Option<i16>) -> Result<Trace, Error> {
        match self.state.step(input) {
            Err(e) => Err(e),
            Ok(state) => Ok(
                Trace {
                    state,
                    consumed: if self.state.wants_input() {
                        self.consumed.push(input->0)
                    } else {
                        self.consumed
                    },
                    traffic: self.traffic + self.state.calls(input),
                },
            ),
        }
    }

    /// Whether a step from this trace, in which the provider gives `input`, has
    /// the outcome `outcome` and leaves the trace `end`. A step that fails leaves
    /// the trace as it was.
    pub open spec fn steps_to(self, input: Option<i16>, outcome: Result<(), Error>, end: Trace) -> bool {
        match (outcome, self.step(input)) {
            (Ok(_), Ok(trace)) => end == trace,
            (Err(e), Err(failure)) => e == failure && end == self,
            _ => false,
        }
    }

    /// How many values have been read since `earlier`.
    pub open spec fn read_since(self, earlier: Trace) -> int {
        self.consumed.len() - earlier.consumed.len()
    }

    /// The trace after `n` steps, in which the provider gives the values of
    /// `inputs` one after the other, and nothing once they are used up.
    pub open spec fn after(self, inputs: Seq<i16>, n: nat) -> Result<Trace, Error>
        decreases n,
    {
        if n == 0 {
            Ok(self)
        } else {
            match self.after(inputs, (n - 1) as nat) {
                Err(e) => Err(e),
                Ok(trace) => {
                    let k = trace.read_since(self);
                    trace.step(
                        if 0 <= k < inputs.len() {
                            Some(inputs[k])
                        } else {
                            None
                        },
                    )
                },
            }
        }
    }
}

/// What a list of values gives at the call for input number `call`, counted
/// from zero: its values in order, and nothing after the last.
pub open spec fn answer(list: Seq<i16>, call: int) -> Option<i16> {
    if 0 <= call < list.len() {
        Some(list[call])
    } else {
        None
    }
}

/// Whether what was given in `traffic` is what `list` gives, call by call.
pub open spec fn follows(traffic: Seq<Traffic>, list: Seq<i16>) -> bool {
    forall|call: int|
        0 <= call < given(traffic).len() ==> (#[trigger] given(traffic)[call]) == answer(list, call)
}

/// Whether `inputs` are the values that `list` gives from the call for input
/// number `from` on, and, where `vain` holds, `list` has nothing to give at the
/// call after them.
pub open spec fn scripted(list: Seq<i16>, from: int, inputs: Seq<i16>, vain: bool) -> bool {
    &&& forall|i: int| 0 <= i < inputs.len() ==> answer(list, from + i) == Some(#[trigger] inputs[i])
    &&& vain ==> answer(list, from + inputs.len()) is None
}

/// What the machine reads its input from and writes its output to.
///
/// A provider may keep a record of the calls made on it. One that does says
/// so in [`keeps_record`](InputProvider::keeps_record), and each call then
/// adds itself to [`traffic`](InputProvider::traffic). Such a provider may also
/// be bound to a list of values laid down beforehand, its
/// [`script`](InputProvider::script), and then gives these and no others. A
/// provider written outside verified code implements the two operations alone:
/// it keeps no record and has no script, and these contracts ask nothing of it.
pub trait InputProvider {
    /// Whether this provider keeps a record of the calls made on it.
    open spec fn keeps_record(&self) -> bool {
        false
    }

    /// The calls made on this provider, the oldest first, if it keeps a record.
    open spec fn traffic(&self) -> Seq<Traffic> {
        Seq::empty()
    }

    /// The values that this provider is bound to give, if it is bound to any.
    open spec fn script(&self) -> Option<Seq<i16>> {
        None
    }

    /// Gives the next value, or `None` when there is none to give.
    fn input(&mut self) -> (value: Option<i16>)
        ensures
            old(self).keeps_record() ==> final(self).keeps_record(),
            final(self).script() == old(self).script(),
            old(self).keeps_record() ==> final(self).traffic() == old(self).traffic().push(
                Traffic::Given(value),
            ),
            old(self).keeps_record() && old(self).script() is Some ==> value == answer(
                old(self).script()->0,
                given(old(self).traffic()).len() as int,
            ),
    ;

    /// Takes a value that the program has written.
    fn output(&mut self, data: i16)
        ensures
            old(self).keeps_record() ==> final(self).keeps_record(),
            final(self).script() == old(self).script(),
            old(self).keeps_record() ==> final(self).traffic() == old(self).traffic().push(
                Traffic::Taken(data),
            ),
    ;
}

/// Whether the provider `after` is what the calls `calls` make of the provider
/// `before`. Without a call it is as it was. If it keeps a record, it still
/// does, and the calls are what has been added to the record. Its script is
/// the same, and if it has given what the script says so far, it has done so
/// in these calls.
pub open spec fn served<T: InputProvider>(before: &T, calls: Seq<Traffic>, after: &T) -> bool {
    &&& calls.len() == 0 ==> *after == *before
    &&& after.script() == before.script()
    &&& before.keeps_record() ==> {
        &&& after.keeps_record()
        &&& after.traffic() == before.traffic() + calls
        &&& before.script() is Some && follows(before.traffic(), before.script()->0) ==> follows(
            after.traffic(),
            before.script()->0,
        )
    }
}

/// The machine by itself.
pub struct Cpu {
    pc: u8,
    accumulator: i16,
    memory: [i16; 100],
    halted: bool,
}

impl View for Cpu {
    type V = State;

    closed spec fn view(&self) -> State {
        State {
            pc: self.pc as nat,
            accumulator: self.accumulator,
            memory: self.memory@,
            halted: self.halted,
        }
    }
}

impl Cpu {
    /// A machine about to execute the instruction in cell 0 of `memory`.
    pub fn new(memory: [i16; 100]) -> (cpu: Cpu)
        ensures
            cpu@ == State::start(memory@),
    {
        Cpu { pc: 0, accumulator: 0, memory, halted: false }
    }

    /// The program counter.
    pub fn pc(&self) -> (pc: u8)
        ensures
            pc == self@.pc,
    {
        self.pc
    }

    /// The accumulator.
    pub fn accumulator(&self) -> (accumulator: i16)
        ensures
            accumulator == self@.accumulator,
    {
        self.accumulator
    }

    /// The memory.
    pub fn memory(&self) -> (memory: &[i16; 100])
        ensures
            memory@ == self@.memory,
    {
        &self.memory
    }

    /// Whether the machine has halted.
    pub fn halted(&self) -> (halted: bool)
        ensures
            halted == self@.halted,
    {
        self.halted
    }

    /// Tells whether the next step reads a value.
    pub fn wants_input(&self) -> (r: bool)
        ensures
            r == self@.wants_input(),
    {
        if self.halted || self.pc >= 100 {
            false
        } else {
            match decode(self.memory[self.pc as usize]) {
                Some(Operation::Inp) => true,
                _ => false,
            }
        }
    }

    /// Executes one instruction, with `input` as the value to read if the
    /// instruction reads one. Gives back the value that the instruction writes,
    /// if it writes one.
    pub fn step(&mut self, input: Option<i16>) -> (r: Result<Option<i16>, Error>)
        ensures
            match (r, old(self)@.step(input)) {
                (Ok(output), Ok(state)) => final(self)@ == state && output == old(self)@.output(),
                (Err(e), Err(failure)) => e == failure && final(self)@ == old(self)@,
                _ => false,
            },
    {
        if self.halted {
            return Ok(None);
        }
        if self.pc >= 100 {
            return Err(Error::CounterOutOfRange { pc: self.pc as usize });
        }
        let address = self.pc as usize;
        let cell = self.memory[address];
        let operation = match decode(cell) {
            Some(operation) => operation,
            None => { return Err(Error::InvalidOpcode { address, cell }); },
        };
        let mut output: Option<i16> = None;
        let mut next: u8 = self.pc + 1;
        match operation {
            Operation::Hlt => {
                self.halted = true;
            },
            Operation::Add(a) => {
                self.accumulator = self.accumulator.wrapping_add(self.memory[a as usize]);
            },
            Operation::Sub(a) => {
                self.accumulator = self.accumulator.wrapping_sub(self.memory[a as usize]);
            },
            Operation::Sta(a) => {
                self.memory[a as usize] = self.accumulator;
            },
            Operation::Lda(a) => {
                self.accumulator = self.memory[a as usize];
            },
            Operation::Bra(a) => {
                next = a;
            },
            Operation::Brz(a) => {
                if self.accumulator == 0 {
                    next = a;
                }
            },
            Operation::Brp(a) => {
                if self.accumulator >= 0 {
                    next = a;
                }
            },
            Operation::Inp => match input {
                Some(value) => {
                    self.accumulator = value;
                },
                None => { return Err(Error::NoInput { address }); },
            },
            Operation::Out => {
                output = Some(self.accumulator);
            },
        }
        self.pc = next;
        Ok(output)
    }
}

/// The machine, joined to what it reads from and writes to.
pub struct LMC<T: InputProvider> {
    cpu: Cpu,
    input_provider: T,
    consumed: Ghost<Seq<i16>>,
    traffic: Ghost<Seq<Traffic>>,
}

/// The model of an [`LMC`] that contracts speak of: the machine with the
/// record of its steps, and the provider.
pub struct Session<T> {
    pub trace: Trace,
    pub provider: T,
}

impl<T: InputProvider> View for LMC<T> {
    type V = Session<T>;

    closed spec fn view(&self) -> Session<T> {
        Session {
            trace: Trace { state: self.cpu@, consumed: self.consumed@, traffic: self.traffic@ },
            provider: self.input_provider,
        }
    }
}

impl<T: InputProvider> LMC<T> {
    /// A machine about to execute the instruction in cell 0 of `memory`.
    pub fn new(input_provider: T, memory: [i16; 100]) -> (machine: Self)
        ensures
            machine@.trace == Trace::start(memory@),
            machine@.provider == input_provider,
    {
        LMC {
            cpu: Cpu::new(memory),
            input_provider,
            consumed: Ghost(Seq::empty()),
            traffic: Ghost(Seq::empty()),
        }
    }

    /// The machine by itself.
    pub fn cpu(&self) -> (cpu: &Cpu)
        ensures
            cpu@ == self@.trace.state,
    {
        &self.cpu
    }

    /// What the machine reads from and writes to.
    pub fn provider(&self) -> (provider: &T)
        ensures
            *provider == self@.provider,
    {
        &self.input_provider
    }

    /// Whether the machine has halted.
    pub fn halted(&self) -> (halted: bool)
        ensures
            halted == self@.trace.state.halted,
    {
        self.cpu.halted
    }

    /// Executes one instruction. An input instruction asks the provider for a
    /// value, an output instruction hands it the accumulator; no other
    /// instruction calls on it.
    ///
    /// The machine moves as [`Trace::step`] says for the value that the provider
    /// gave, and on a failure it stays as it was. The provider has been called
    /// as [`State::calls`] says, and not otherwise.
    pub fn step(&mut self) -> (r: Result<(), Error>)
        ensures
            exists|input: Option<i16>|
                {
                    &&& #[trigger] old(self)@.trace.steps_to(input, r, final(self)@.trace)
                    &&& served(
                        &old(self)@.provider,
                        old(self)@.trace.state.calls(input),
                        &final(self)@.provider,
                    )
                },
    {
        let ghost before = self@.trace;
        let input = if self.cpu.wants_input() {
            self.input_provider.input()
        } else {
            None
        };
        let ghost calls = before.state.calls(input);
        match self.cpu.step(input) {
            Err(e) => {
                assert(before.steps_to(input, Err(e), self@.trace));
                proof {
                    let record = old(self)@.provider.traffic();
                    if before.state.wants_input() {
                        assert(record + calls == record.push(Traffic::Given(input)));
                        lemma_follows_given(&old(self)@.provider, input);
                    } else {
                        assert(record + calls == record);
                    }
                }
                assert(served(&old(self)@.provider, calls, &self@.provider));
                Err(e)
            },
            Ok(output) => {
                proof {
                    if before.state.wants_input() {
                        self.consumed@ = self.consumed@.push(input->0);
                    }
                    self.traffic@ = self.traffic@ + calls;
                }
                match output {
                    Some(value) => {
                        self.input_provider.output(value);
                    },
                    None => {},
                }
                assert(before.steps_to(input, Ok(()), self@.trace));
                proof {
                    let record = old(self)@.provider.traffic();
                    if before.state.wants_input() {
                        assert(record + calls == record.push(Traffic::Given(input)));
                        lemma_follows_given(&old(self)@.provider, input);
                    } else if output is Some {
                        assert(record + calls == record.push(Traffic::Taken(output->0)));
                        lemma_follows_taken(&old(self)@.provider, output->0);
                    } else {
                        assert(record + calls == record);
                    }
                }
                assert(served(&old(self)@.provider, calls, &self@.provider));
                Ok(())
            },
        }
    }

    /// Executes instructions until the machine halts, a step fails or
    /// `max_steps` steps are done, whichever comes first, and gives the number
    /// of steps done.
    ///
    /// Let `inputs` be the values read during the call. Then `Ok(n)` means that
    /// the machine is where `n` steps on these inputs take it, that it was not
    /// halted before the last of them, and that it is halted now unless `n` is
    /// `max_steps`. `Err(e)` means that the machine is where some number of
    /// steps below `max_steps` take it, is not halted, and that its next step
    /// fails with `e`.
    ///
    /// The provider has been called as the record of these steps says, in that
    /// order, and once more for input where the call ends in
    /// [`Error::NoInput`]. It has not been called otherwise: a run without such
    /// calls leaves it as it was. Where the provider keeps a record and has
    /// followed a script so far, `inputs` are what the script gives next.
    pub fn run(&mut self, max_steps: u64) -> (r: Result<u64, Error>)
        ensures
            old(self)@.trace.consumed.is_prefix_of(final(self)@.trace.consumed),
            old(self)@.trace.traffic.is_prefix_of(final(self)@.trace.traffic),
            served(
                &old(self)@.provider,
                final(self)@.trace.traffic.skip(old(self)@.trace.traffic.len() as int) + vain_call(r),
                &final(self)@.provider,
            ),
            old(self)@.provider.keeps_record() && old(self)@.provider.script() is Some
                && follows(
                old(self)@.provider.traffic(),
                old(self)@.provider.script()->0,
            ) ==> scripted(
                old(self)@.provider.script()->0,
                given(old(self)@.provider.traffic()).len() as int,
                final(self)@.trace.consumed.skip(old(self)@.trace.consumed.len() as int),
                vain_call(r).len() > 0,
            ),
            ({
                let start = old(self)@.trace;
                let end = final(self)@.trace;
                let inputs = end.consumed.skip(start.consumed.len() as int);
                match r {
                    Ok(n) => {
                        &&& n <= max_steps
                        &&& start.after(inputs, n as nat) == Ok::<Trace, Error>(end)
                        &&& n > 0 ==> !start.after(inputs, (n - 1) as nat)->Ok_0.state.halted
                        &&& n < max_steps ==> end.state.halted
                    },
                    Err(e) => {
                        &&& exists|n: nat|
                            n < max_steps && #[trigger] start.after(inputs, n) == Ok::<Trace, Error>(
                                end,
                            )
                        &&& !end.state.halted
                        &&& end.step(None) == Err::<Trace, Error>(e)
                    },
                }
            }),
    {
        let ghost start = self@.trace;
        let mut steps: u64 = 0;
        assert(start.consumed.skip(start.consumed.len() as int) == Seq::<i16>::empty());
        assert(start.traffic.skip(start.traffic.len() as int) == Seq::<Traffic>::empty());
        assert(self@.provider.traffic() + Seq::<Traffic>::empty()
            == self@.provider.traffic());
        assert(given(self@.provider.traffic()) + read(Seq::<i16>::empty()) == given(
            self@.provider.traffic(),
        ));
        while steps < max_steps && !self.cpu.halted()
            invariant
                start == old(self)@.trace,
                steps <= max_steps,
                start.consumed.is_prefix_of(self@.trace.consumed),
                start.traffic.is_prefix_of(self@.trace.traffic),
                served(
                    &old(self)@.provider,
                    self@.trace.traffic.skip(start.traffic.len() as int),
                    &self@.provider,
                ),
                old(self)@.provider.keeps_record() ==> given(self@.provider.traffic())
                    == given(old(self)@.provider.traffic()) + read(
                    self@.trace.consumed.skip(start.consumed.len() as int),
                ),
                start.after(self@.trace.consumed.skip(start.consumed.len() as int), steps as nat)
                    == Ok::<Trace, Error>(self@.trace),
                steps > 0 ==> !start.after(
                    self@.trace.consumed.skip(start.consumed.len() as int),
                    (steps - 1) as nat,
                )->Ok_0.state.halted,
            decreases max_steps - steps,
        {
            let ghost before = self@.trace;
            let ghost provider = self@.provider;
            let ghost inputs = before.consumed.skip(start.consumed.len() as int);
            let ghost done = before.traffic.skip(start.traffic.len() as int);
            let outcome = self.step();
            let ghost input = choose|input: Option<i16>|
                {
                    &&& #[trigger] before.steps_to(input, outcome, self@.trace)
                    &&& served(&provider, before.state.calls(input), &self@.provider)
                };
            let ghost calls = before.state.calls(input);
            proof {
                if old(self)@.provider.keeps_record() {
                    let first = old(self)@.provider.traffic();
                    let record = provider.traffic();
                    let now = self@.trace.consumed.skip(start.consumed.len() as int);
                    assert(first + (done + calls) == first + done + calls);
                    if before.state.wants_input() {
                        assert(record + calls == record.push(Traffic::Given(input)));
                        assert(record.push(Traffic::Given(input)).drop_last() == record);
                        if outcome is Ok {
                            assert(now == inputs.push(input->0));
                            assert(read(now) == read(inputs).push(input));
                        }
                        assert(given(first) + read(inputs).push(input) == (given(first) + read(
                            inputs,
                        )).push(input));
                    } else if before.state.output() is Some {
                        let value = before.state.output()->0;
                        assert(record + calls == record.push(Traffic::Taken(value)));
                        assert(record.push(Traffic::Taken(value)).drop_last() == record);
                    } else {
                        assert(record + calls == record);
                    }
                }
            }
            match outcome {
                Err(e) => {
                    proof {
                        lemma_failure_without_input(before, input);
                        assert(calls == vain_call(Err::<u64, Error>(e)));
                        if old(self)@.provider.keeps_record() && old(
                            self,
                        )@.provider.script() is Some && follows(
                            old(self)@.provider.traffic(),
                            old(self)@.provider.script()->0,
                        ) {
                            let first = given(old(self)@.provider.traffic());
                            if before.state.wants_input() {
                                assert(input is None);
                                assert(given(self@.provider.traffic()) == first + read(inputs)
                                    + seq![None::<i16>]);
                            } else {
                                assert(first + read(inputs) + Seq::<Option<i16>>::empty() == first
                                    + read(inputs));
                            }
                            lemma_scripted(
                                &old(self)@.provider,
                                &self@.provider,
                                inputs,
                                calls.len() > 0,
                            );
                        }
                    }
                    return Err(e);
                },
                Ok(_) => {
                    proof {
                        assert(self@.trace.traffic.skip(start.traffic.len() as int) == done + calls);
                        let now = self@.trace.consumed.skip(start.consumed.len() as int);
                        lemma_step_record(before, input);
                        assert(inputs.take(inputs.len() as int) == inputs);
                        assert(now.take(inputs.len() as int) == inputs);
                        lemma_after_same_inputs(start, inputs, now, steps as nat);
                        if before.state.wants_input() {
                            assert(now[inputs.len() as int] == input->0);
                        } else {
                            lemma_step_without_input(before, input, None);
                        }
                    }
                },
            }
            steps += 1;
        }
        proof {
            let done = self@.trace.traffic.skip(start.traffic.len() as int);
            assert(done + Seq::<Traffic>::empty() == done);
            if old(self)@.provider.keeps_record() && old(self)@.provider.script() is Some
                && follows(
                old(self)@.provider.traffic(),
                old(self)@.provider.script()->0,
            ) {
                let first = given(old(self)@.provider.traffic());
                let inputs = self@.trace.consumed.skip(start.consumed.len() as int);
                assert(first + read(inputs) + Seq::<Option<i16>>::empty() == first + read(inputs));
                lemma_scripted(&old(self)@.provider, &self@.provider, inputs, false);
            }
        }
        Ok(steps)
    }
}

/// The values of `inputs`, each as a provider gives it.
pub open spec fn read(inputs: Seq<i16>) -> Seq<Option<i16>> {
    inputs.map_values(|value: i16| Some(value))
}

/// The call for input that got nothing, where a run ends in
/// [`Error::NoInput`]; no call where it ends otherwise.
pub open spec fn vain_call(outcome: Result<u64, Error>) -> Seq<Traffic> {
    match outcome {
        Err(Error::NoInput { .. }) => seq![Traffic::Given(None)],
        _ => Seq::empty(),
    }
}

/// An [`InputProvider`] for use without a console: it gives the values of a
/// list made beforehand and keeps a record of the calls made on it.
pub struct Script {
    inputs: Vec<i16>,
    given: usize,
    log: Vec<Traffic>,
}

impl Script {
    /// The values that this script was made to give.
    pub closed spec fn list(&self) -> Seq<i16> {
        self.inputs@
    }

    /// A script that gives the values of `inputs` in order.
    pub fn new(inputs: Vec<i16>) -> (script: Script)
        ensures
            script.keeps_record(),
            script.list() == inputs@,
            script.traffic() == Seq::<Traffic>::empty(),
    {
        Script { inputs, given: 0, log: Vec::new() }
    }

    /// The calls made so far, the oldest first.
    pub fn calls(&self) -> (calls: &Vec<Traffic>)
        ensures
            calls@ == self.traffic(),
    {
        &self.log
    }

    /// The values written so far, the oldest first.
    pub fn outputs(&self) -> (outputs: Vec<i16>)
        ensures
            outputs@ == written(self.traffic()),
    {
        let mut outputs: Vec<i16> = Vec::new();
        let mut i: usize = 0;
        assert(self.log@.take(0) == Seq::<Traffic>::empty());
        while i < self.log.len()
            invariant
                i <= self.log.len(),
                outputs@ == written(self.log@.take(i as int)),
            decreases self.log.len() - i,
        {
            assert(self.log@.take(i + 1).drop_last() == self.log@.take(i as int));
            match self.log[i] {
                Traffic::Taken(value) => {
                    outputs.push(value);
                },
                Traffic::Given(_) => {},
            }
            i += 1;
        }
        assert(self.log@.take(i as int) == self.log@);
        outputs
    }

    /// How many values of the list are still to be given.
    pub fn remaining(&self) -> (count: usize)
        ensures
            self.keeps_record() ==> count == if given(self.traffic()).len() < self.list().len() {
                self.list().len() - given(self.traffic()).len()
            } else {
                0
            },
    {
        if self.given <= self.inputs.len() {
            self.inputs.len() - self.given
        } else {
            0
        }
    }
}

impl InputProvider for Script {
    /// Whether the record is in step with the list: as many values of the list
    /// count as given as there were calls for input, up to the end of the list.
    /// It is so from the start.
    closed spec fn keeps_record(&self) -> bool {
        self.given == if given(self.log@).len() < self.inputs.len() {
            given(self.log@).len()
        } else {
            self.inputs.len() as nat
        }
    }

    closed spec fn traffic(&self) -> Seq<Traffic> {
        self.log@
    }

    open spec fn script(&self) -> Option<Seq<i16>> {
        Some(self.list())
    }

    /// Gives the next value of the list, or `None` when the list is used up.
    fn input(&mut self) -> (value: Option<i16>)
        ensures
            final(self).list() == old(self).list(),
    {
        let value = if self.given < self.inputs.len() {
            let value = self.inputs[self.given];
            self.given += 1;
            Some(value)
        } else {
            None
        };
        assert(self.log@.push(Traffic::Given(value)).drop_last() == self.log@);
        self.log.push(Traffic::Given(value));
        value
    }

    /// Keeps `data` as the last value written.
    fn output(&mut self, data: i16)
        ensures
            final(self).list() == old(self).list(),
    {
        assert(self.log@.push(Traffic::Taken(data)).drop_last() == self.log@);
        self.log.push(Traffic::Taken(data));
    }
}

/// A branch on a positive accumulator is taken when the accumulator is zero
/// or more and passed over when it is negative; it changes nothing but the
/// program counter.
pub proof fn lemma_branch_if_positive(state: State, address: u8, input: Option<i16>)
    requires
        !state.halted,
        state.fetch() == Ok::<Operation, Error>(Operation::Brp(address)),
    ensures
        state.step(input) == Ok::<State, Error>(
            State {
                pc: if state.accumulator >= 0 {
                    address as nat
                } else {
                    state.pc + 1
                },
                ..state
            },
        ),
{
}

/// A halted machine stays as it is: the trace after more steps is the trace
/// at the halt.
pub proof fn lemma_halted_stays(trace: Trace, inputs: Seq<i16>, k: nat, n: nat)
    requires
        k <= n,
        trace.after(inputs, k) matches Ok(halt) && halt.state.halted,
    ensures
        trace.after(inputs, n) == trace.after(inputs, k),
    decreases n - k,
{
    if k < n {
        lemma_halted_stays(trace, inputs, k, (n - 1) as nat);
    }
}

/// A provider that has given what its script says keeps doing so when it
/// gives what the script says next.
proof fn lemma_follows_given<T: InputProvider>(provider: &T, value: Option<i16>)
    ensures
        provider.script() is Some && follows(provider.traffic(), provider.script()->0) && value
            == answer(provider.script()->0, given(provider.traffic()).len() as int) ==> follows(
            provider.traffic().push(Traffic::Given(value)),
            provider.script()->0,
        ),
{
    let record = provider.traffic();
    assert(record.push(Traffic::Given(value)).drop_last() == record);
}

/// Where a provider that follows its script has given `inputs`, and nothing
/// after them if `vain` holds, these are what the script gives.
proof fn lemma_scripted<T: InputProvider>(before: &T, after: &T, inputs: Seq<i16>, vain: bool)
    requires
        before.script() is Some,
        follows(after.traffic(), before.script()->0),
        given(after.traffic()) == given(before.traffic()) + read(inputs) + if vain {
            seq![None::<i16>]
        } else {
            Seq::empty()
        },
    ensures
        scripted(before.script()->0, given(before.traffic()).len() as int, inputs, vain),
{
    let from = given(before.traffic()).len() as int;
    let all = given(after.traffic());
    assert forall|i: int| 0 <= i < inputs.len() implies answer(before.script()->0, from + i)
        == Some(#[trigger] inputs[i]) by {
        assert(all[from + i] == read(inputs)[i]);
    }
    if vain {
        assert(all[from + inputs.len()] == None::<i16>);
    }
}

/// A value taken changes nothing in what was given.
proof fn lemma_follows_taken<T: InputProvider>(provider: &T, data: i16)
    ensures
        provider.script() is Some && follows(provider.traffic(), provider.script()->0) ==> follows(
            provider.traffic().push(Traffic::Taken(data)),
            provider.script()->0,
        ),
{
    let record = provider.traffic();
    assert(record.push(Traffic::Taken(data)).drop_last() == record);
}

/// A step that does not read goes the same way whatever the outside would give.
proof fn lemma_step_without_input(trace: Trace, a: Option<i16>, b: Option<i16>)
    requires
        !trace.state.wants_input(),
    ensures
        trace.step(a) == trace.step(b),
{
}

/// A step adds to the record and takes nothing from it; a step that reads puts
/// the value it was given on record.
proof fn lemma_step_record(trace: Trace, input: Option<i16>)
    requires
        trace.step(input) is Ok,
    ensures
        trace.consumed.is_prefix_of(trace.step(input)->Ok_0.consumed),
        trace.state.wants_input() ==> input is Some && trace.step(input)->Ok_0.consumed
            == trace.consumed.push(input->0),
        !trace.state.wants_input() ==> trace.step(input)->Ok_0.consumed == trace.consumed,
{
}

/// What has been read once stays on record.
proof fn lemma_after_record(trace: Trace, inputs: Seq<i16>, n: nat)
    requires
        trace.after(inputs, n) is Ok,
    ensures
        trace.consumed.is_prefix_of(trace.after(inputs, n)->Ok_0.consumed),
    decreases n,
{
    if n > 0 {
        let before = trace.after(inputs, (n - 1) as nat)->Ok_0;
        lemma_after_record(trace, inputs, (n - 1) as nat);
        let k = before.read_since(trace);
        let input = if 0 <= k < inputs.len() {
            Some(inputs[k])
        } else {
            None
        };
        lemma_step_record(before, input);
    }
}

/// A run depends on the inputs only as far as it reads them: two sequences
/// that agree on what the run has read lead to the same trace.
proof fn lemma_after_same_inputs(trace: Trace, a: Seq<i16>, b: Seq<i16>, n: nat)
    requires
        trace.after(a, n) is Ok,
        ({
            let k = trace.after(a, n)->Ok_0.read_since(trace);
            k <= a.len() && k <= b.len() && a.take(k) == b.take(k)
        }),
    ensures
        trace.after(b, n) == trace.after(a, n),
    decreases n,
{
    if n > 0 {
        let m = (n - 1) as nat;
        let before = trace.after(a, m)->Ok_0;
        let end = trace.after(a, n)->Ok_0;
        let j = before.read_since(trace);
        let k = end.read_since(trace);
        let input_a = if 0 <= j < a.len() {
            Some(a[j])
        } else {
            None
        };
        let input_b = if 0 <= j < b.len() {
            Some(b[j])
        } else {
            None
        };
        lemma_after_record(trace, a, m);
        lemma_step_record(before, input_a);
        assert(a.take(j) == a.take(k).take(j));
        assert(b.take(j) == b.take(k).take(j));
        lemma_after_same_inputs(trace, a, b, m);
        if before.state.wants_input() {
            assert(k == j + 1);
            assert(a[j] == a.take(k)[j]);
            assert(b[j] == b.take(k)[j]);
        } else {
            lemma_step_without_input(before, input_a, input_b);
        }
    }
}

/// A run that has failed stays failed: more steps end in the same failure.
pub proof fn lemma_failed_stays(trace: Trace, inputs: Seq<i16>, k: nat, n: nat)
    requires
        k <= n,
        trace.after(inputs, k) is Err,
    ensures
        trace.after(inputs, n) == trace.after(inputs, k),
    decreases n - k,
{
    if k < n {
        lemma_failed_stays(trace, inputs, k, (n - 1) as nat);
    }
}

/// A step that fails fails the same way when the outside gives nothing.
proof fn lemma_failure_without_input(trace: Trace, input: Option<i16>)
    requires
        trace.step(input) is Err,
    ensures
        trace.step(None) == trace.step(input),
{
}

} // verus!
