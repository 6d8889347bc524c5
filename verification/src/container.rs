//! Container-engine helpers: the exposed-port map for a spawn, and the
//! engine's lifecycle event stream decoded into plain values.

use vstd::prelude::*;
use vstd::string::StringExecFns;

use crate::agent::str_eq;
use crate::table::find_where;

verus! {

/// Durations measured in whole minutes.
pub trait MinuteExt {
    /// The length of this duration in seconds.
    spec fn spec_seconds(&self) -> int;

    /// The number of whole minutes in this duration.
    fn as_minutes(&self) -> (r: u128)
        ensures
            r == self.spec_seconds() / 60,
    ;
}

impl MinuteExt for u64 {
    open spec fn spec_seconds(&self) -> int {
        *self as int
    }

    fn as_minutes(&self) -> (r: u128) {
        (*self / 60) as u128
    }
}

/// The name of the single entry [`make_exposed_ports`] builds: the port
/// in decimal, then `/tcp`.
pub fn exposed_port_key(port: u16) -> (r: String)
    ensures
        r@ == crate::routing::spec_dec(port as int) + "/tcp"@,
{
    let mut key = crate::routing::format_u32(port as u32);
    key.append("/tcp");
    key
}

/// The port map handed to the engine when creating a container: one entry,
/// named by [`exposed_port_key`], whose value is the empty map. The map's
/// contents cannot be stated here (a `String`-keyed std map has no usable
/// key model), so the contract fixes only that a map is always produced;
/// the entry's name carries its own exact contract.
pub fn make_exposed_ports(port: u16) -> (r: Option<
    std::collections::HashMap<String, std::collections::HashMap<(), ()>>,
>)
    ensures
        r is Some,
{
    let key = exposed_port_key(port);
    let dummy: std::collections::HashMap<(), ()> = std::collections::HashMap::new();
    let mut map: std::collections::HashMap<String, std::collections::HashMap<(), ()>> =
        std::collections::HashMap::new();
    map.insert(key, dummy);
    Some(map)
}

/// The kinds of container events the engine reports.
#[derive(Debug, PartialEq, Eq, Structural, Clone, Copy)]
pub enum ContainerEventType {
    Attach,
    Commit,
    Copy,
    Create,
    Destroy,
    Detach,
    Die,
    ExecCreate,
    ExecDetach,
    ExecDie,
    ExecStart,
    Export,
    HealthStatus,
    Kill,
    Oom,
    Pause,
    Rename,
    Resize,
    Restart,
    Start,
    Stop,
    Top,
    Unpause,
    Update,
}

/// The actor of an engine event, with its attributes as plain pairs.
#[derive(Debug)]
pub struct EventActor {
    pub attributes: Option<Vec<(String, String)>>,
}

/// An engine event, as plain values.
#[derive(Debug)]
pub struct EventMessage {
    pub action: Option<String>,
    pub actor: Option<EventActor>,
}

/// A decoded container event.
#[derive(Debug)]
pub struct ContainerEvent {
    pub event: ContainerEventType,
    pub name: String,
}

/// The event type an action name decodes to, if any.
pub open spec fn event_type_of(action: Seq<char>) -> Option<ContainerEventType> {
    if action == "attach"@ {
        Some(ContainerEventType::Attach)
    } else if action == "commit"@ {
        Some(ContainerEventType::Commit)
    } else if action == "copy"@ {
        Some(ContainerEventType::Copy)
    } else if action == "create"@ {
        Some(ContainerEventType::Create)
    } else if action == "destroy"@ {
        Some(ContainerEventType::Destroy)
    } else if action == "detach"@ {
        Some(ContainerEventType::Detach)
    } else if action == "die"@ {
        Some(ContainerEventType::Die)
    } else if action == "exec_create"@ {
        Some(ContainerEventType::ExecCreate)
    } else if action == "exec_detach"@ {
        Some(ContainerEventType::ExecDetach)
    } else if action == "exec_die"@ {
        Some(ContainerEventType::ExecDie)
    } else if action == "exec_start"@ {
        Some(ContainerEventType::ExecStart)
    } else if action == "export"@ {
        Some(ContainerEventType::Export)
    } else if action == "health_status"@ {
        Some(ContainerEventType::HealthStatus)
    } else if action == "kill"@ {
        Some(ContainerEventType::Kill)
    } else if action == "oom"@ {
        Some(ContainerEventType::Oom)
    } else if action == "pause"@ {
        Some(ContainerEventType::Pause)
    } else if action == "rename"@ {
        Some(ContainerEventType::Rename)
    } else if action == "resize"@ {
        Some(ContainerEventType::Resize)
    } else if action == "restart"@ {
        Some(ContainerEventType::Restart)
    } else if action == "start"@ {
        Some(ContainerEventType::Start)
    } else if action == "stop"@ {
        Some(ContainerEventType::Stop)
    } else if action == "top"@ {
        Some(ContainerEventType::Top)
    } else if action == "unpause"@ {
        Some(ContainerEventType::Unpause)
    } else if action == "update"@ {
        Some(ContainerEventType::Update)
    } else {
        None
    }
}

/// What decoding an engine event yields: its action must decode, its actor
/// must carry a `name` attribute.
pub open spec fn spec_container_event(ev: EventMessage, r: Option<ContainerEvent>) -> bool {
    match ev.action {
        None => r is None,
        Some(action) => match ev.actor {
            None => r is None,
            Some(actor) => match actor.attributes {
                None => r is None,
                Some(attrs) => match find_where(
                    attrs@,
                    |p: (String, String)| p.0@ == "name"@,
                ) {
                    None => r is None,
                    Some(p) => match event_type_of(action@) {
                        None => r is None,
                        Some(t) => r matches Some(ce) && ce.event == t && ce.name@ == p.1@,
                    },
                },
            },
        },
    }
}

impl ContainerEvent {
    /// Decode an engine event: the action names the event type, the
    /// actor's `name` attribute names the container; anything else is
    /// dropped.
    pub fn from_event_message(ev: &EventMessage) -> (r: Option<ContainerEvent>)
        ensures
            spec_container_event(*ev, r),
    {
        let Some(action) = &ev.action else { return None };
        let Some(actor) = &ev.actor else { return None };
        let Some(attrs) = &actor.attributes else { return None };

        let a = action.as_str();
        let event = if str_eq(a, "attach") {
            Some(ContainerEventType::Attach)
        } else if str_eq(a, "commit") {
            Some(ContainerEventType::Commit)
        } else if str_eq(a, "copy") {
            Some(ContainerEventType::Copy)
        } else if str_eq(a, "create") {
            Some(ContainerEventType::Create)
        } else if str_eq(a, "destroy") {
            Some(ContainerEventType::Destroy)
        } else if str_eq(a, "detach") {
            Some(ContainerEventType::Detach)
        } else if str_eq(a, "die") {
            Some(ContainerEventType::Die)
        } else if str_eq(a, "exec_create") {
            Some(ContainerEventType::ExecCreate)
        } else if str_eq(a, "exec_detach") {
            Some(ContainerEventType::ExecDetach)
        } else if str_eq(a, "exec_die") {
            Some(ContainerEventType::ExecDie)
        } else if str_eq(a, "exec_start") {
            Some(ContainerEventType::ExecStart)
        } else if str_eq(a, "export") {
            Some(ContainerEventType::Export)
        } else if str_eq(a, "health_status") {
            Some(ContainerEventType::HealthStatus)
        } else if str_eq(a, "kill") {
            Some(ContainerEventType::Kill)
        } else if str_eq(a, "oom") {
            Some(ContainerEventType::Oom)
        } else if str_eq(a, "pause") {
            Some(ContainerEventType::Pause)
        } else if str_eq(a, "rename") {
            Some(ContainerEventType::Rename)
        } else if str_eq(a, "resize") {
            Some(ContainerEventType::Resize)
        } else if str_eq(a, "restart") {
            Some(ContainerEventType::Restart)
        } else if str_eq(a, "start") {
            Some(ContainerEventType::Start)
        } else if str_eq(a, "stop") {
            Some(ContainerEventType::Stop)
        } else if str_eq(a, "top") {
            Some(ContainerEventType::Top)
        } else if str_eq(a, "unpause") {
            Some(ContainerEventType::Unpause)
        } else if str_eq(a, "update") {
            Some(ContainerEventType::Update)
        } else {
            None
        };
        let mut i: usize = 0;
        while i < attrs.len()
            invariant
                i <= attrs@.len(),
                ev.action matches Some(s) && s == *action,
                ev.actor matches Some(ac) && ac.attributes matches Some(at) && at == *attrs,
                forall|j: int| 0 <= j < i ==> (#[trigger] attrs@[j]).0@ != "name"@,
                match event {
                    Some(t) => event_type_of(action@) == Some(t),
                    None => event_type_of(action@) is None,
                },
            decreases attrs@.len() - i,
        {
            if str_eq(attrs[i].0.as_str(), "name") {
                proof {
                    let pred = |p: (String, String)| p.0@ == "name"@;
                    assert(pred(attrs@[i as int]));
                    assert forall|j: int| 0 <= j < i implies !pred(#[trigger] attrs@[j]) by {}
                    crate::table::lemma_find_where_at(attrs@, pred, i as int);
                }
                let name = attrs[i].1.clone();
                return match event {
                    Some(event) => Some(ContainerEvent { event, name }),
                    None => None,
                };
            }
            i = i + 1;
        }
        proof {
            let pred = |p: (String, String)| p.0@ == "name"@;
            assert forall|j: int| 0 <= j < attrs@.len() implies !pred(#[trigger] attrs@[j]) by {}
            crate::table::lemma_find_where_none(attrs@, pred);
        }
        None
    }
}

} // verus!
