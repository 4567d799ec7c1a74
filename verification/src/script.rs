//! What the drivers see of the records of a test script.

use vstd::prelude::*;

verus! {

/// A record of a script, as far as it steers a driver.
pub enum ScriptEvent {
    /// The records of the included file with this name follow.
    BeginInclude(String),
    /// The records of the included file with this name are over.
    EndInclude(String),
    /// The rest of the script is to be ignored.
    Halt,
    /// Any other record, that which asks for an include among them.
    Record,
}

/// How many more includes begin than end in `events`.
pub open spec fn nesting(events: Seq<(ScriptEvent, u64)>) -> int
    decreases events.len(),
{
    if events.len() == 0 {
        0
    } else {
        nesting(events.drop_last()) + match events.last().0 {
            ScriptEvent::BeginInclude(_) => 1int,
            ScriptEvent::EndInclude(_) => -1int,
            _ => 0int,
        }
    }
}

/// Whether no include of `events` ends that has not begun in it.
pub open spec fn nested(events: Seq<(ScriptEvent, u64)>) -> bool
    decreases events.len(),
{
    nesting(events) >= 0 && (events.len() == 0 || nested(events.drop_last()))
}

/// Whether the includes of `events` begin and end in pairs, as the parser of scripts
/// delivers them.
pub open spec fn balanced(events: Seq<(ScriptEvent, u64)>) -> bool {
    nested(events) && nesting(events) == 0
}

/// How many includes end in `events`.
pub open spec fn ended(events: Seq<(ScriptEvent, u64)>) -> nat
    decreases events.len(),
{
    if events.len() == 0 {
        0
    } else {
        ended(events.drop_last()) + (if events.last().0 is EndInclude {
            1nat
        } else {
            0
        })
    }
}

/// Where the first halt of `events` stands; their number, where there is none.
pub open spec fn halt_at(events: Seq<(ScriptEvent, u64)>) -> int
    decreases events.len(),
{
    if events.len() == 0 || events[0].0 is Halt {
        0
    } else {
        1 + halt_at(events.skip(1))
    }
}

/// No halt stands before the first one.
pub proof fn lemma_halt_at(events: Seq<(ScriptEvent, u64)>)
    ensures
        0 <= halt_at(events) <= events.len(),
        forall|i: int| 0 <= i < halt_at(events) ==> !((#[trigger] events[i]).0 is Halt),
        halt_at(events) < events.len() ==> events[halt_at(events)].0 is Halt,
    decreases events.len(),
{
    if events.len() > 0 && !(events[0].0 is Halt) {
        let rest = events.skip(1);
        lemma_halt_at(rest);
        assert forall|i: int| 0 <= i < halt_at(events) implies !((#[trigger] events[i]).0 is Halt) by {
            if i > 0 {
                assert(events[i] == rest[i - 1]);
            }
        }
    }
}

}
