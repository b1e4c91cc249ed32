//! "SSH keys and ssh-agent" in Settings, and a hint when a key has a
//! passphrase while ssh-agent isn't running (then every connect asks for
//! it).

use vstd::prelude::*;

use crate::text;

verus! {

/// What an administrator runs to turn the agent on.
pub const ENABLE_COMMAND: &'static str = "Set-Service ssh-agent -StartupType Automatic; Start-Service ssh-agent";

/// `state.db` setting: the hint was dismissed.
pub const HINT_SETTING: &'static str = "agent_hint_dismissed";

/// The state of the ssh-agent service.
#[derive(Clone, Copy, Debug, PartialEq, Eq, Structural)]
pub enum ServiceState {
    Running,
    Stopped,
    Disabled,
    NotInstalled,
}

/// What the agent answered.
#[derive(Clone, Copy, Debug, PartialEq, Eq, Structural)]
pub enum AgentKeys {
    /// It holds keys.
    Loaded,
    Empty,
    Unreachable,
}

#[derive(Clone, Debug)]
pub struct Status {
    pub service: ServiceState,
    /// (private key, has a passphrase)
    pub keys: Vec<(String, Option<bool>)>,
    pub agent: AgentKeys,
    /// `SSH_AUTH_SOCK` points ssh at another agent.
    pub other_agent: bool,
}

/// Whether an agent is there to be asked.
pub fn asks_agent(service: ServiceState, other_agent: bool) -> (r: bool)
    ensures
        r == (service is Running || other_agent),
{
    service == ServiceState::Running || other_agent
}

/// What Settings shows of the agent, line by line.
#[derive(Clone, Copy, Debug, PartialEq, Eq, Structural)]
pub enum Shown {
    Service(ServiceState),
    /// There are no keys in the folder.
    NoKeys,
    /// The key at this place, and whether it has a passphrase.
    Key(usize, Option<bool>),
    /// Another agent is used.
    OtherAgent,
    Agent(AgentKeys),
    /// The keys can be added to the agent.
    AddKeys,
    /// Why an agent would help, and how to turn it on.
    Why,
}

impl Status {
    /// A key has a passphrase.
    pub open spec fn has_protected(self) -> bool {
        exists|i: int| 0 <= i < self.keys@.len() && (#[trigger] self.keys@[i]).1 == Some(true)
    }

    /// An agent answers for the keys.
    pub open spec fn has_agent(self) -> bool {
        self.service is Running || (self.other_agent && !(self.agent is Unreachable))
    }

    /// A key with a passphrase and no agent: every connect asks for it.
    pub fn needs_agent(&self) -> (r: bool)
        ensures
            r == (!self.has_agent() && self.has_protected()),
    {
        let agent = self.service == ServiceState::Running || (self.other_agent && self.agent != AgentKeys::Unreachable);
        let mut i: usize = 0;
        while i < self.keys.len()
            invariant
                i <= self.keys@.len(),
                agent == self.has_agent(),
                forall|j: int| 0 <= j < i ==> (#[trigger] self.keys@[j]).1 != Some(true),
            decreases self.keys@.len() - i,
        {
            if let Some(protected) = self.keys[i].1 {
                if protected {
                    proof {
                        assert(self.keys@[i as int].1 == Some(true));
                    }
                    return !agent;
                }
            }
            i += 1;
        }
        false
    }

    /// Whether the hint is shown at the top (unless dismissed).
    pub fn shows_hint(&self, dismissed: &Option<String>) -> (r: bool)
        ensures
            r == (!self.has_agent() && self.has_protected() && !(dismissed matches Some(v) && v@ == "1"@)),
    {
        let dismissed = match dismissed {
            Some(v) => text::same(v, "1"),
            None => false,
        };
        self.needs_agent() && !dismissed
    }

    /// What Settings shows: the service, the keys, and either what the
    /// agent holds or why one would help. `can_open`: there is a Terminal
    /// to add keys in.
    pub open spec fn shown_lines(self, can_open: bool) -> Seq<Shown> {
        let keys = Seq::new(self.keys@.len(), |i: int| Shown::Key(i as usize, self.keys@[i].1));
        let asked = self.service is Running || self.other_agent;
        seq![Shown::Service(self.service)] + (if self.keys@.len() == 0 {
            seq![Shown::NoKeys]
        } else {
            Seq::empty()
        }) + keys + (if self.other_agent {
            seq![Shown::OtherAgent]
        } else {
            Seq::empty()
        }) + (if asked {
            seq![Shown::Agent(self.agent)] + (if self.agent is Empty && self.keys@.len() > 0 && can_open {
                seq![Shown::AddKeys]
            } else {
                Seq::empty()
            })
        } else if !self.has_agent() && self.has_protected() {
            seq![Shown::Why]
        } else {
            Seq::empty()
        })
    }

    /// What Settings shows.
    pub fn settings(&self, can_open: bool) -> (r: Vec<Shown>)
        ensures
            r@ == self.shown_lines(can_open),
    {
        let mut r: Vec<Shown> = Vec::new();
        r.push(Shown::Service(self.service));
        if self.keys.len() == 0 {
            r.push(Shown::NoKeys);
        }
        let ghost front = r@;
        let mut i: usize = 0;
        proof {
            assert(front + Seq::<Shown>::empty() =~= front);
            assert(Seq::new(0, |i: int| Shown::Key(i as usize, self.keys@[i].1)) =~= Seq::<Shown>::empty());
        }
        while i < self.keys.len()
            invariant
                i <= self.keys@.len(),
                r@ == front + Seq::new(i as nat, |i: int| Shown::Key(i as usize, self.keys@[i].1)),
            decreases self.keys@.len() - i,
        {
            r.push(Shown::Key(i, self.keys[i].1));
            proof {
                assert(r@ =~= front + Seq::new((i + 1) as nat, |i: int| Shown::Key(i as usize, self.keys@[i].1)));
            }
            i += 1;
        }
        if self.other_agent {
            r.push(Shown::OtherAgent);
        }
        if asks_agent(self.service, self.other_agent) {
            r.push(Shown::Agent(self.agent));
            if self.agent == AgentKeys::Empty && self.keys.len() > 0 && can_open {
                r.push(Shown::AddKeys);
            }
        } else if self.needs_agent() {
            r.push(Shown::Why);
        }
        proof {
            assert(r@ =~= self.shown_lines(can_open));
        }
        r
    }
}

/// The hint is shown only where the settings explain it, and never while
/// an agent runs.
pub proof fn law_hint_is_explained(s: Status)
    requires
        !s.has_agent(),
        s.has_protected(),
        !s.other_agent,
    ensures
        s.shown_lines(true).last() == Shown::Why,
{
}

/// Who has an agent: whoever's service runs, or another agent that answers.
pub proof fn law_who_has_an_agent(s: Status)
    ensures
        s.service is Running ==> s.has_agent(),
        s.other_agent && (s.agent is Loaded || s.agent is Empty) ==> s.has_agent(),
        !(s.service is Running) && !s.other_agent ==> !s.has_agent(),
        !(s.service is Running) && s.agent is Unreachable ==> !s.has_agent(),
{
}

/// A key is protected where one of them is known to be.
pub proof fn law_protected_keys(s: Status, i: int)
    ensures
        0 <= i < s.keys@.len() && s.keys@[i].1 == Some(true) ==> s.has_protected(),
        s.has_protected() ==> exists|k: int| 0 <= k < s.keys@.len() && s.keys@[k].1 == Some(true),
{
    if s.has_protected() {
        let k = choose|k: int| 0 <= k < s.keys@.len() && (#[trigger] s.keys@[k]).1 == Some(true);
        assert(s.keys@[k].1 == Some(true));
    }
}

/// What is shown of the agent: the service, every key or that there is none,
/// another agent, what the agent holds where one is asked, how to add keys
/// where it holds none, and why one helps where there is none.
pub proof fn law_agent_lines(s: Status, can_open: bool)
    ensures
        ({
            let l = s.shown_lines(can_open);
            let n = s.keys@.len();
            let keys = if n == 0 { 1nat } else { n };
            let other = if s.other_agent { 1nat } else { 0nat };
            let asked = s.service is Running || s.other_agent;
            let add = asked && s.agent is Empty && n > 0 && can_open;
            let why = !asked && s.has_protected();
            &&& l.len() == 1 + keys + other + (if asked { 1nat } else { 0nat }) + (if add || why { 1nat } else { 0nat })
            &&& l[0] == Shown::Service(s.service)
            &&& n == 0 ==> l[1] is NoKeys
            &&& forall|i: int| 0 <= i < n ==> l[1 + i] == Shown::Key(i as usize, (#[trigger] s.keys@[i]).1)
            &&& s.other_agent ==> l[1 + keys as int] is OtherAgent
            &&& asked ==> l[1 + keys + other as int] == Shown::Agent(s.agent)
            &&& add ==> l.last() is AddKeys
            &&& why ==> l.last() is Why
        }),
{
}

} // verus!
