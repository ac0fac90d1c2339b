use crate::machine::control_unit::{ControlUnit, ExecutionState};
use crate::machine::data_path::{data_memory_words, DataPath};
use crate::machine::io::{byte_char, interrupt_pending, pending_vector};
use crate::machine::control_unit::program_words;
use crate::translator::assembly::ControlUnitPackage;
use vstd::prelude::*;

verus! {

/// The input device that an interrupt request comes from.
#[derive(Clone, Copy, PartialEq, Eq, Structural)]
pub enum DeviceChoice {
    IntInput,
    CharInput,
}

/// A value that arrives on an input device at a given tick and raises an interrupt.
#[derive(Clone, Copy, PartialEq, Eq, Structural)]
pub struct InterruptRequest {
    pub tick: u64,
    pub value: i64,
    pub device: DeviceChoice,
}

impl InterruptRequest {
    pub fn new(tick: u64, value: i64, device: DeviceChoice) -> (request: Self)
        ensures
            request == (InterruptRequest { tick, value, device }),
    {
        Self { tick, value, device }
    }
}

/// Whether a request has arrived by `tick`.
pub open spec fn arrived(request: InterruptRequest, tick: u64) -> bool {
    request.tick <= tick
}

/// Whether some request of `device` has arrived by `tick`.
pub open spec fn device_ready(requests: Seq<InterruptRequest>, tick: u64, device: DeviceChoice) -> bool {
    exists|i: int| 0 <= i < requests.len() && arrived(#[trigger] requests[i], tick) && requests[i].device == device
}

/// The device served at `tick`: the integer device where one of its requests has arrived,
/// else the character device where one of its has.
pub open spec fn served_device(requests: Seq<InterruptRequest>, tick: u64) -> Option<DeviceChoice> {
    if device_ready(requests, tick, DeviceChoice::IntInput) {
        Some(DeviceChoice::IntInput)
    } else if device_ready(requests, tick, DeviceChoice::CharInput) {
        Some(DeviceChoice::CharInput)
    } else {
        None
    }
}

/// Whether a request leaves the queue at `tick`: while an interrupt is pending, every request
/// that has arrived is dropped; otherwise those of the served device are.
pub open spec fn leaves_queue(
    request: InterruptRequest,
    tick: u64,
    busy: bool,
    served: Option<DeviceChoice>,
) -> bool {
    arrived(request, tick) && (busy || served == Some(request.device))
}

/// The requests that stay queued, in their order.
pub open spec fn staying(
    requests: Seq<InterruptRequest>,
    tick: u64,
    busy: bool,
    served: Option<DeviceChoice>,
) -> Seq<InterruptRequest>
    decreases requests.len(),
{
    if requests.len() == 0 {
        requests
    } else {
        let rest = staying(requests.drop_last(), tick, busy, served);
        if leaves_queue(requests.last(), tick, busy, served) {
            rest
        } else {
            rest.push(requests.last())
        }
    }
}

/// Whether index `i` holds the request of `device` to deliver at `tick`: it has arrived,
/// no arrived request of the device is older, and none of the same age comes before it.
pub open spec fn is_first_arrival(
    requests: Seq<InterruptRequest>,
    tick: u64,
    device: DeviceChoice,
    i: int,
) -> bool {
    &&& 0 <= i < requests.len()
    &&& arrived(requests[i], tick)
    &&& requests[i].device == device
    &&& forall|k: int|
        0 <= k < requests.len() && arrived(#[trigger] requests[k], tick) && requests[k].device
            == device ==> requests[i].tick <= requests[k].tick
    &&& forall|k: int|
        0 <= k < i && arrived(#[trigger] requests[k], tick) && requests[k].device == device
            ==> requests[k].tick > requests[i].tick
}

/// The decision of the interrupt controller at one tick: which request to deliver, if any,
/// and which stay queued.
pub struct InterruptSelection {
    pub chosen: Option<InterruptRequest>,
    pub remaining: Vec<InterruptRequest>,
}

/// Decides which queued request to deliver at `tick`. While an interrupt is pending (`busy`)
/// nothing is delivered and every request that has arrived is dropped. Otherwise the
/// oldest arrived request of the integer device is delivered, or failing that the oldest of
/// the character device, and every arrived request of that device leaves the queue.
pub fn select_interrupts(requests: &Vec<InterruptRequest>, tick: u64, busy: bool) -> (selection:
    InterruptSelection)
    ensures
        selection.remaining@ == staying(requests@, tick, busy, served_device(requests@, tick)),
        busy ==> selection.chosen is None,
        !busy && served_device(requests@, tick) is None ==> selection.chosen is None,
        !busy && served_device(requests@, tick) is Some ==> exists|i: int|
            is_first_arrival(
                requests@,
                tick,
                served_device(requests@, tick)->0,
                i,
            ) && selection.chosen == Some(#[trigger] requests@[i]),
{
    let n = requests.len();
    let mut best_int: Option<usize> = None;
    let mut best_char: Option<usize> = None;
    let mut i: usize = 0;
    while i < n
        invariant
            n == requests@.len(),
            i <= n,
            best_int is None <==> !(exists|k: int|
                0 <= k < i && arrived(#[trigger] requests@[k], tick) && requests@[k].device
                    == DeviceChoice::IntInput),
            best_int is Some ==> best_int->0 < i && is_first_arrival(
                requests@.take(i as int),
                tick,
                DeviceChoice::IntInput,
                best_int->0 as int,
            ),
            best_char is None <==> !(exists|k: int|
                0 <= k < i && arrived(#[trigger] requests@[k], tick) && requests@[k].device
                    == DeviceChoice::CharInput),
            best_char is Some ==> best_char->0 < i && is_first_arrival(
                requests@.take(i as int),
                tick,
                DeviceChoice::CharInput,
                best_char->0 as int,
            ),
        decreases n - i,
    {
        let request = requests[i];
        if request.tick <= tick {
            match request.device {
                DeviceChoice::IntInput => {
                    let better = match best_int {
                        None => true,
                        Some(j) => request.tick < requests[j].tick,
                    };
                    if better {
                        best_int = Some(i);
                    }
                },
                DeviceChoice::CharInput => {
                    let better = match best_char {
                        None => true,
                        Some(j) => request.tick < requests[j].tick,
                    };
                    if better {
                        best_char = Some(i);
                    }
                },
            }
        }
        proof {
            let s = requests@;
            let t = s.take(i + 1);
            assert forall|k: int| 0 <= k < i + 1 implies #[trigger] t[k] == s[k] by {}
        }
        i = i + 1;
    }
    proof {
        assert(requests@.take(n as int) =~= requests@);
    }
    let ghost served = served_device(requests@, tick);
    let serve_int = best_int.is_some();
    let serve_char = !serve_int && best_char.is_some();
    let chosen = if busy {
        None
    } else if serve_int {
        Some(requests[best_int.unwrap()])
    } else if serve_char {
        Some(requests[best_char.unwrap()])
    } else {
        None
    };
    let mut remaining: Vec<InterruptRequest> = Vec::new();
    let mut j: usize = 0;
    while j < n
        invariant
            n == requests@.len(),
            j <= n,
            served == served_device(requests@, tick),
            serve_int == (served == Some(DeviceChoice::IntInput)),
            serve_char == (served == Some(DeviceChoice::CharInput)),
            remaining@ == staying(requests@.take(j as int), tick, busy, served),
        decreases n - j,
    {
        let request = requests[j];
        let leaves = request.tick <= tick && (busy || match request.device {
            DeviceChoice::IntInput => serve_int,
            DeviceChoice::CharInput => serve_char,
        });
        proof {
            assert(requests@.take(j + 1).drop_last() =~= requests@.take(j as int));
            assert(requests@.take(j + 1).last() == request);
        }
        if !leaves {
            remaining.push(request);
        }
        j = j + 1;
    }
    proof {
        assert(requests@.take(n as int) =~= requests@);
    }
    InterruptSelection { chosen, remaining }
}

/// What delivering a request does to the machine: the device named by the request takes its
/// value and raises its interrupt, the interrupt vector is latched, and nothing else changes.
pub open spec fn interrupt_delivered(before: ControlUnit, after: ControlUnit, request: InterruptRequest) -> bool {
    &&& (after.data_path.io.int_input_device.data == (match request.device {
            DeviceChoice::IntInput => request.value,
            DeviceChoice::CharInput => before.data_path.io.int_input_device.data,
        }))
    &&& (after.data_path.io.char_input_device.data == (match request.device {
            DeviceChoice::IntInput => before.data_path.io.char_input_device.data,
            DeviceChoice::CharInput => byte_char(request.value),
        }))
    &&& (after.data_path.io.int_input_device.interrupt == (
        before.data_path.io.int_input_device.interrupt || request.device
            == DeviceChoice::IntInput))
    &&& (after.data_path.io.char_input_device.interrupt == (
        before.data_path.io.char_input_device.interrupt || request.device
            == DeviceChoice::CharInput))
    &&& (after.data_path.io.int_input_device.vector
            == before.data_path.io.int_input_device.vector)
    &&& (after.data_path.io.char_input_device.vector
            == before.data_path.io.char_input_device.vector)
    &&& (after.data_path.io.interrupt_vector == pending_vector(
            after.data_path.io,
        ))
    &&& (after.data_path.io.int_output_log@
            == before.data_path.io.int_output_log@)
    &&& (after.data_path.io.char_output_log@
            == before.data_path.io.char_output_log@)
    &&& (after == (ControlUnit {
            data_path: DataPath { io: after.data_path.io, ..before.data_path },
            ..before
        }))
}

/// Whether `delivered` is the machine after the interrupt controller acts at its tick on
/// `queue`: while an interrupt is pending, or no request has arrived, nothing is delivered;
/// otherwise the first arrived request of the served device is.
pub open spec fn delivery(before: ControlUnit, queue: Seq<InterruptRequest>, delivered: ControlUnit) -> bool {
    let busy = interrupt_pending(before.data_path.io);
    let served = served_device(queue, before.tick);
    if busy || served is None {
        delivered == before
    } else {
        exists|i: int|
            is_first_arrival(queue, before.tick, served->0, i) && #[trigger] interrupt_delivered(
                before,
                delivered,
                queue[i],
            )
    }
}

/// One round of the simulation on a queue of requests: the interrupt controller delivers
/// what has arrived and drops what it must, then the machine takes one step.
pub open spec fn round(
    before: ControlUnit,
    queue: Seq<InterruptRequest>,
    after: ControlUnit,
    rest: Seq<InterruptRequest>,
) -> bool {
    &&& rest == staying(
        queue,
        before.tick,
        interrupt_pending(before.data_path.io),
        served_device(queue, before.tick),
    )
    &&& exists|delivered: ControlUnit|
        #![trigger delivered.stepped(&after)]
        delivery(before, queue, delivered) && delivered.stepped(&after)
}

/// The machine that a package is loaded into: the program from address 0 and zeros after it,
/// the data lane by lane and zeros after it, the eight interrupt vectors and no others,
/// cleared registers and logs, and the control automaton at its start.
pub open spec fn loaded_machine(machine: ControlUnit, package: ControlUnitPackage) -> bool {
    &&& machine.program_memory.data@.len() == program_words()
    &&& forall|i: int|
        0 <= i < program_words() ==> #[trigger] machine.program_memory.data@[i] == if i
            < package.program@.len() {
            package.program@[i]
        } else {
            0
        }
    &&& machine.data_path.data_memory.data@.len() == data_memory_words()
    &&& forall|w: int, lane: int|
        0 <= w < data_memory_words() && 0 <= lane < 4
            ==> #[trigger] machine.data_path.data_memory.data@[w]@[lane] == if 4 * w + lane
            < package.data@.len() {
            package.data@[4 * w + lane]
        } else {
            0
        }
    &&& machine.vector_table@.len() == 256
    &&& forall|i: int|
        0 <= i < 256 ==> #[trigger] machine.vector_table@[i] == if i < 8 {
            Some(package.interrupt_vectors@[i])
        } else {
            None
        }
    &&& machine.data_path.data_registers@ == seq![0u64, 0, 0, 0, 0, 0, 0, 0]
    &&& machine.data_path.address_registers@ == seq![0u64, 0, 0, 0, 0, 0, 0, 0]
    &&& machine.pc == 0
    &&& machine.tick == 0
    &&& machine.execution_state == ExecutionState::Start
    &&& machine.fault is None
    &&& machine.interrupt_flag
    &&& !machine.interrupt_processing
    &&& machine.data_path.io.int_output_log@ == Seq::<i64>::empty()
    &&& machine.data_path.io.char_output_log@ == Seq::<char>::empty()
    &&& !machine.data_path.io.int_input_device.interrupt
    &&& !machine.data_path.io.char_input_device.interrupt
}

/// Whether `trace` is a run of the machine loaded with `package` on the queue `requests`: it
/// starts loaded with the whole queue, each state and queue follow from the ones before by a
/// round, and it ends stopped.
pub open spec fn is_run(
    trace: Seq<(ControlUnit, Seq<InterruptRequest>)>,
    package: ControlUnitPackage,
    requests: Seq<InterruptRequest>,
) -> bool {
    &&& trace.len() >= 1
    &&& loaded_machine(trace[0].0, package)
    &&& trace[0].1 == requests
    &&& forall|i: int|
        0 <= i < trace.len() - 1 ==> #[trigger] round(
            trace[i].0,
            trace[i].1,
            trace[i + 1].0,
            trace[i + 1].1,
        )
    &&& trace.last().0.stopped()
}

/// Delivers a request to its device: the value is stored, the device raises its interrupt
/// and the interrupt vector is latched.
pub fn process_interrupt(control_unit: &mut ControlUnit, interrupt: &InterruptRequest)
    ensures
        interrupt_delivered(*old(control_unit), *final(control_unit), *interrupt),
{
    let port: u8 = match interrupt.device {
        DeviceChoice::IntInput => 0,
        DeviceChoice::CharInput => 2,
    };
    control_unit.data_path.io.write_internal(port, interrupt.value);
    match interrupt.device {
        DeviceChoice::IntInput => {
            control_unit.data_path.io.int_input_device.interrupt = true;
        },
        DeviceChoice::CharInput => {
            control_unit.data_path.io.char_input_device.interrupt = true;
        },
    }
    control_unit.data_path.io.update_interrupt_vector();
}

/// Loads a package into a fresh machine and runs it until it stops, delivering the queued
/// interrupt requests as they arrive; returns what the program wrote to the integer and the
/// character output, and the number of ticks the machine ran.
pub fn simulate_machine(package: ControlUnitPackage, interrupts: Vec<InterruptRequest>) -> (outputs:
    (Vec<i64>, Vec<char>, u64))
    requires
        package.program@.len() <= program_words(),
        package.data@.len() <= 4 * data_memory_words(),
    ensures
        exists|trace: Seq<(ControlUnit, Seq<InterruptRequest>)>|
            #![trigger is_run(trace, package, interrupts@)]
            is_run(trace, package, interrupts@) && outputs.0@
                == trace.last().0.data_path.io.int_output_log@ && outputs.1@
                == trace.last().0.data_path.io.char_output_log@ && outputs.2 == trace.last().0.tick,
{
    let ghost given = package;
    let mut control_unit = ControlUnit::default();
    let ghost fresh = control_unit;
    control_unit.load_program(package.program.as_slice());
    control_unit.load_data_section(package.data);
    control_unit.load_interrupt_vectors(package.interrupt_vectors);
    let ghost requests = interrupts@;
    let mut queue = interrupts;
    let ghost mut trace: Seq<(ControlUnit, Seq<InterruptRequest>)> = seq![(control_unit, queue@)];
    proof {
        let m = control_unit;
        assert forall|w: int, lane: int|
            0 <= w < data_memory_words() && 0 <= lane < 4 implies #[trigger] m.data_path.data_memory.data@[w]@[lane]
            == if 4 * w + lane < given.data@.len() {
            given.data@[4 * w + lane]
        } else {
            0
        } by {
            assert(fresh.data_path.data_memory.data@[w]@ == seq![0u64, 0, 0, 0]);
        }
        assert forall|i: int| 0 <= i < program_words() implies #[trigger] m.program_memory.data@[i]
            == if i < given.program@.len() {
            given.program@[i]
        } else {
            0
        } by {
            assert(fresh.program_memory.data@[i] == 0);
        }
        assert forall|i: int| 0 <= i < 256 implies #[trigger] m.vector_table@[i] == if i < 8 {
            Some(given.interrupt_vectors@[i])
        } else {
            None
        } by {
            assert(fresh.vector_table@[i] is None);
        }
        assert(loaded_machine(trace[0].0, given));
    }
    loop
        invariant
            control_unit.consistent(),
            trace.len() >= 1,
            loaded_machine(trace[0].0, given),
            trace[0].1 == requests,
            forall|i: int|
                0 <= i < trace.len() - 1 ==> #[trigger] round(
                    trace[i].0,
                    trace[i].1,
                    trace[i + 1].0,
                    trace[i + 1].1,
                ),
            trace.last() == (control_unit, queue@),
        ensures
            control_unit.stopped(),
            is_run(trace, given, requests),
            trace.last().0 == control_unit,
        decreases control_unit.progress(),
    {
        let ghost before = control_unit;
        let ghost waiting = queue@;
        let busy = control_unit.data_path.io.check_interrupt();
        let selection = select_interrupts(&queue, control_unit.tick, busy);
        match selection.chosen {
            Some(request) => process_interrupt(&mut control_unit, &request),
            None => {},
        }
        let ghost delivered = control_unit;
        queue = selection.remaining;
        let halted = control_unit.step();
        proof {
            assert(delivery(before, waiting, delivered));
            assert(delivered.stepped(&control_unit));
            assert(round(before, waiting, control_unit, queue@));
            let old_trace = trace;
            trace = trace.push((control_unit, queue@));
            assert forall|i: int| 0 <= i < trace.len() - 1 implies #[trigger] round(
                trace[i].0,
                trace[i].1,
                trace[i + 1].0,
                trace[i + 1].1,
            ) by {
                if i < old_trace.len() - 1 {
                    assert(trace[i] == old_trace[i] && trace[i + 1] == old_trace[i + 1]);
                }
            }
        }
        if halted {
            break ;
        }
    }
    let ticks = control_unit.tick;
    (control_unit.data_path.io.int_output_log, control_unit.data_path.io.char_output_log, ticks)
}

} // verus!
