//! Entering raw mode, one system call at a time.
//!
//! A [`Setup`] says which call comes next and is told whether it succeeded.
//! Everything that can be refused without a trace is asked first, and what was
//! applied is taken back if a later step fails: a terminal is never left
//! half-configured.

use vstd::prelude::*;

verus! {

/// One of the two ends of a terminal.
#[derive(Debug, Clone, Copy, PartialEq, Eq, Structural)]
pub enum Device {
    Input,
    Output,
}

/// Which ends have a mode of their own to be configured.
#[derive(Debug, Clone, Copy, PartialEq, Eq, Structural)]
pub enum Devices {
    /// Input alone.
    Input,
    /// Input and output.
    Both,
}

/// The next call to make.
#[derive(Debug, Clone, Copy, PartialEq, Eq, Structural)]
pub enum Call {
    /// Read the current mode, to be restored later.
    Load(Device),
    /// Query the size.
    Measure,
    /// Set the raw mode.
    Apply(Device),
    /// Set the mode that was loaded.
    Undo(Device),
    /// Nothing more: the terminal is in raw mode.
    Done,
    /// Nothing more: report the first error.
    Fail,
}

/// The call that follows `call`, given whether it succeeded.
pub open spec fn next_call(devices: Devices, call: Call, ok: bool) -> Call {
    match call {
        Call::Load(Device::Input) => if !ok {
            Call::Fail
        } else if devices == Devices::Both {
            Call::Load(Device::Output)
        } else {
            Call::Measure
        },
        Call::Load(Device::Output) => if ok {
            Call::Measure
        } else {
            Call::Fail
        },
        Call::Measure => if ok {
            Call::Apply(Device::Input)
        } else {
            Call::Fail
        },
        Call::Apply(Device::Input) => if !ok {
            Call::Fail
        } else if devices == Devices::Both {
            Call::Apply(Device::Output)
        } else {
            Call::Done
        },
        Call::Apply(Device::Output) => if ok {
            Call::Done
        } else {
            Call::Undo(Device::Input)
        },
        Call::Undo(_) => Call::Fail,
        Call::Done => Call::Done,
        Call::Fail => Call::Fail,
    }
}

/// The way into raw mode.
#[derive(Debug)]
pub struct Setup {
    devices: Devices,
    call: Call,
}

impl Setup {
    /// The ends that are configured.
    pub closed spec fn devices(self) -> Devices {
        self.devices
    }

    /// The call to make next.
    pub closed spec fn call(self) -> Call {
        self.call
    }

    /// Nothing done yet.
    pub fn new(devices: Devices) -> (setup: Setup)
        ensures
            setup.devices() == devices,
            setup.call() == first_call(),
    {
        Setup { devices, call: Call::Load(Device::Input) }
    }

    /// The call to make next.
    pub fn next(&self) -> (call: Call)
        ensures
            call == self.call(),
    {
        self.call
    }

    /// Takes note of whether the call succeeded.
    pub fn answer(&mut self, ok: bool)
        ensures
            final(self).devices() == old(self).devices(),
            final(self).call() == next_call(old(self).devices(), old(self).call(), ok),
    {
        let both = match self.devices {
            Devices::Both => true,
            Devices::Input => false,
        };
        self.call = match self.call {
            Call::Load(Device::Input) => if !ok {
                Call::Fail
            } else if both {
                Call::Load(Device::Output)
            } else {
                Call::Measure
            },
            Call::Load(Device::Output) => if ok {
                Call::Measure
            } else {
                Call::Fail
            },
            Call::Measure => if ok {
                Call::Apply(Device::Input)
            } else {
                Call::Fail
            },
            Call::Apply(Device::Input) => if !ok {
                Call::Fail
            } else if both {
                Call::Apply(Device::Output)
            } else {
                Call::Done
            },
            Call::Apply(Device::Output) => if ok {
                Call::Done
            } else {
                Call::Undo(Device::Input)
            },
            Call::Undo(_) => Call::Fail,
            Call::Done => Call::Done,
            Call::Fail => Call::Fail,
        };
    }
}

// ---------------------------------------------------------------------------
// What becomes of the terminal

/// The first call.
pub open spec fn first_call() -> Call {
    Call::Load(Device::Input)
}

/// Which ends of the terminal are in raw mode, and whether the system refused
/// to take one back.
pub struct World {
    pub input: bool,
    pub output: bool,
    pub refused: bool,
}

/// What a call does to the terminal. A call that fails does nothing.
pub open spec fn effect(world: World, call: Call, ok: bool) -> World {
    match call {
        Call::Apply(Device::Input) => World { input: world.input || ok, ..world },
        Call::Apply(Device::Output) => World { output: world.output || ok, ..world },
        Call::Undo(Device::Input) => World {
            input: world.input && !ok,
            refused: world.refused || !ok,
            ..world
        },
        Call::Undo(Device::Output) => World {
            output: world.output && !ok,
            refused: world.refused || !ok,
            ..world
        },
        _ => world,
    }
}

/// The call that is due once the calls so far were answered by `oks`.
pub open spec fn call_after(devices: Devices, oks: Seq<bool>) -> Call
    decreases oks.len(),
{
    if oks.len() == 0 {
        first_call()
    } else {
        next_call(devices, call_after(devices, oks.drop_last()), oks.last())
    }
}

/// The terminal once the calls so far were answered by `oks`.
pub open spec fn world_after(devices: Devices, oks: Seq<bool>) -> World
    decreases oks.len(),
{
    if oks.len() == 0 {
        World { input: false, output: false, refused: false }
    } else {
        effect(
            world_after(devices, oks.drop_last()),
            call_after(devices, oks.drop_last()),
            oks.last(),
        )
    }
}

/// A terminal is never left half-configured, whichever calls fail: in the end
/// either every end is in raw mode, or none is, unless the system refused to
/// take back what was set.
pub proof fn never_half_configured(devices: Devices, oks: Seq<bool>)
    ensures
        call_after(devices, oks) == Call::Done ==> {
            &&& world_after(devices, oks).input
            &&& world_after(devices, oks).output == (devices == Devices::Both)
        },
        call_after(devices, oks) == Call::Fail && !world_after(devices, oks).refused ==> {
            &&& !world_after(devices, oks).input
            &&& !world_after(devices, oks).output
        },
{
    lemma_on_the_way(devices, oks);
}

/// As long as something may still be refused without a trace, nothing is set:
/// a redirected end is found before the first mode is.
pub proof fn nothing_is_set_before_all_is_known(devices: Devices, oks: Seq<bool>)
    requires
        call_after(devices, oks) is Load || call_after(devices, oks) is Measure,
    ensures
        !world_after(devices, oks).input,
        !world_after(devices, oks).output,
{
    lemma_on_the_way(devices, oks);
}

/// The way into raw mode ends after a few calls, and if none fails it ends
/// well.
pub proof fn setup_ends(devices: Devices, oks: Seq<bool>)
    requires
        oks.len() >= 6,
    ensures
        call_after(devices, oks) == Call::Done || call_after(devices, oks) == Call::Fail,
        (forall|i: int| 0 <= i < oks.len() ==> #[trigger] oks[i]) ==> call_after(devices, oks)
            == Call::Done,
    decreases oks.len(),
{
    if oks.len() > 6 {
        setup_ends(devices, oks.drop_last());
        if forall|i: int| 0 <= i < oks.len() ==> #[trigger] oks[i] {
            assert forall|i: int| 0 <= i < oks.drop_last().len() implies #[trigger]
            oks.drop_last()[i] by {
                assert(oks[i]);
            }
        }
    } else {
        reveal_with_fuel(call_after, 7);
        assert(oks.drop_last().drop_last().drop_last().drop_last().drop_last().last() == oks[0]);
        assert(oks.drop_last().drop_last().drop_last().drop_last().last() == oks[1]);
        assert(oks.drop_last().drop_last().drop_last().last() == oks[2]);
        assert(oks.drop_last().drop_last().last() == oks[3]);
        assert(oks.drop_last().last() == oks[4]);
    }
}

/// What is set at each point of the way.
proof fn lemma_on_the_way(devices: Devices, oks: Seq<bool>)
    ensures
        ({
            let w = world_after(devices, oks);
            match call_after(devices, oks) {
                Call::Load(Device::Input) => !w.input && !w.output && !w.refused,
                Call::Load(Device::Output) => !w.input && !w.output && !w.refused && devices
                    == Devices::Both,
                Call::Measure => !w.input && !w.output && !w.refused,
                Call::Apply(Device::Input) => !w.input && !w.output && !w.refused,
                Call::Apply(Device::Output) => w.input && !w.output && !w.refused && devices
                    == Devices::Both,
                Call::Undo(d) => d == Device::Input && w.input && !w.output && !w.refused,
                Call::Done => w.input && w.output == (devices == Devices::Both),
                Call::Fail => w.refused || !w.input && !w.output,
            }
        }),
    decreases oks.len(),
{
    if oks.len() > 0 {
        lemma_on_the_way(devices, oks.drop_last());
    }
}

/// Raw mode is reached only if every call succeeded on the way: a refusal is
/// never passed over.
pub proof fn done_means_nothing_was_refused(devices: Devices, oks: Seq<bool>, i: int)
    requires
        call_after(devices, oks) == Call::Done,
        0 <= i < oks.len(),
        call_after(devices, oks.take(i)) != Call::Done,
    ensures
        oks[i],
    decreases oks.len(),
{
    let init = oks.drop_last();
    if i == oks.len() - 1 {
        assert(oks.take(i) =~= init);
    } else {
        assert(oks.take(i) =~= init.take(i));
        lemma_no_way_back(devices, oks);
        if call_after(devices, init) == Call::Done {
            done_means_nothing_was_refused(devices, init, i);
        } else {
            lemma_all_answered_well(devices, init, i);
        }
    }
}

/// Before the end, and unless something is being taken back, every call so far
/// succeeded.
proof fn lemma_all_answered_well(devices: Devices, oks: Seq<bool>, i: int)
    requires
        !(call_after(devices, oks) is Undo),
        call_after(devices, oks) != Call::Done,
        call_after(devices, oks) != Call::Fail,
        0 <= i < oks.len(),
    ensures
        oks[i],
    decreases oks.len(),
{
    if i < oks.len() - 1 {
        lemma_all_answered_well(devices, oks.drop_last(), i);
    }
}

proof fn lemma_no_way_back(devices: Devices, oks: Seq<bool>)
    requires
        oks.len() > 0,
        call_after(devices, oks) == Call::Done,
    ensures
        call_after(devices, oks.drop_last()) != Call::Fail,
        !(call_after(devices, oks.drop_last()) is Undo),
{
}

/// The calls, as long as all succeed: the modes that will be restored are read
/// first, then the size, and then the modes are set, input before output.
pub proof fn calls_come_in_order(devices: Devices, oks: Seq<bool>)
    requires
        forall|i: int| 0 <= i < oks.len() ==> #[trigger] oks[i],
    ensures
        oks.len() == 0 ==> call_after(devices, oks) == Call::Load(Device::Input),
        devices == Devices::Input ==> {
            &&& oks.len() == 1 ==> call_after(devices, oks) == Call::Measure
            &&& oks.len() == 2 ==> call_after(devices, oks) == Call::Apply(Device::Input)
            &&& oks.len() >= 3 ==> call_after(devices, oks) == Call::Done
        },
        devices == Devices::Both ==> {
            &&& oks.len() == 1 ==> call_after(devices, oks) == Call::Load(Device::Output)
            &&& oks.len() == 2 ==> call_after(devices, oks) == Call::Measure
            &&& oks.len() == 3 ==> call_after(devices, oks) == Call::Apply(Device::Input)
            &&& oks.len() == 4 ==> call_after(devices, oks) == Call::Apply(Device::Output)
            &&& oks.len() >= 5 ==> call_after(devices, oks) == Call::Done
        },
    decreases oks.len(),
{
    if oks.len() > 0 {
        let init = oks.drop_last();
        assert forall|i: int| 0 <= i < init.len() implies #[trigger] init[i] by {
            assert(oks[i]);
        }
        calls_come_in_order(devices, init);
        assert(oks[oks.len() - 1]);
    }
}

/// A refusal ends it at once, except that input mode is taken back first if it
/// was set already, and what ended stays ended.
pub proof fn a_refusal_ends_it(devices: Devices, oks: Seq<bool>, ok: bool)
    ensures
        ({
            let call = call_after(devices, oks);
            let refused = call_after(devices, oks.push(false));
            &&& call is Load || call == Call::Measure || call == Call::Apply(Device::Input)
                ==> refused == Call::Fail
            &&& call == Call::Apply(Device::Output) ==> refused == Call::Undo(Device::Input)
            &&& call is Undo || call == Call::Fail ==> call_after(devices, oks.push(ok))
                == Call::Fail
            &&& call == Call::Done ==> call_after(devices, oks.push(ok)) == Call::Done
        }),
{
    assert(oks.push(false).drop_last() =~= oks);
    assert(oks.push(ok).drop_last() =~= oks);
}

} // verus!
