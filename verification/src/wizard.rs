//! The first steps: what the wizard's buttons do.

use vstd::prelude::*;

use crate::app::{Host, Tree};
use crate::data_dir;
use crate::data_dir::Pointer;
use crate::paths;
use crate::text;

verus! {

/// A button of the wizard.
#[derive(Clone, Debug, PartialEq, Eq)]
pub enum WizardAction {
    InstallProfile,
    OpenSettings,
    ImportSecureCrt,
    ImportPutty,
    CreateKey,
    InstallKeys,
    MoveFolders(String),
    AdoptFolders(String),
    MoveData(String),
    OpenFolder(String),
    Done,
}

/// What is done for it.
#[derive(Clone, Debug, PartialEq, Eq)]
pub enum WizardStep {
    Nothing,
    InstallProfile,
    OpenSettings,
    ImportSecureCrt,
    ImportPutty,
    /// A key is created in a tab, in this file.
    CreateKey(String),
    /// The key dialog for these hosts: alias and label.
    InstallKeys(Vec<(String, String)>),
    MoveFolders(String),
    AdoptFolders(String),
    MoveData(String),
    OpenFolder(String),
    /// The wizard closes for good (`remember`: it is written down).
    Close { remember: bool },
}

/// The wizard waits behind a dialog that it opened.
pub fn is_shown(wizard: bool, dialog: bool) -> (r: bool)
    ensures
        r == (wizard && !dialog),
{
    wizard && !dialog
}

/// Whether the wizard offers to move the data: not where the command line
/// or the environment says where it is.
pub fn data_movable(source: &str) -> (r: bool)
    ensures
        r == !(data_dir::updated_for(source@) is Fixed),
{
    match data_dir::pointer_for(source) {
        Pointer::Fixed => false,
        _ => true,
    }
}

/// The hosts by ssh, in order, by alias and label.
pub open spec fn key_hosts(hosts: Seq<Host>) -> Seq<(Seq<char>, Seq<char>)>
    decreases hosts.len(),
{
    if hosts.len() == 0 {
        Seq::empty()
    } else {
        let before = key_hosts(hosts.drop_last());
        if hosts.last().plink {
            before
        } else {
            before.push((hosts.last().alias@, hosts.last().label@))
        }
    }
}

/// What is done for a button: a key is created only where tabs can be
/// opened, and installed only where there are hosts for it.
pub open spec fn is_step(action: WizardAction, hosts: Seq<Host>, ssh_dir: Seq<char>, core: bool, step: WizardStep) -> bool {
    match action {
        WizardAction::InstallProfile => step is InstallProfile,
        WizardAction::OpenSettings => step is OpenSettings,
        WizardAction::ImportSecureCrt => step is ImportSecureCrt,
        WizardAction::ImportPutty => step is ImportPutty,
        WizardAction::CreateKey => if core {
            step matches WizardStep::CreateKey(p) && paths::is_joined(p@, ssh_dir, "id_ed25519"@)
        } else {
            step is Nothing
        },
        WizardAction::InstallKeys => if key_hosts(hosts).len() > 0 {
            step matches WizardStep::InstallKeys(h) && text::pairs(h@) == key_hosts(hosts)
        } else {
            step is Nothing
        },
        WizardAction::MoveFolders(p) => step == WizardStep::MoveFolders(p),
        WizardAction::AdoptFolders(p) => step == WizardStep::AdoptFolders(p),
        WizardAction::MoveData(p) => step == WizardStep::MoveData(p),
        WizardAction::OpenFolder(p) => step == WizardStep::OpenFolder(p),
        WizardAction::Done => step == (WizardStep::Close { remember: core }),
    }
}

impl Tree {
    /// The hosts by ssh, by alias and label.
    pub fn key_hosts(&self) -> (r: Vec<(String, String)>)
        ensures
            text::pairs(r@) == key_hosts(self.hosts@),
    {
        let mut r: Vec<(String, String)> = Vec::new();
        let mut i: usize = 0;
        proof {
            assert(self.hosts@.take(0) =~= Seq::empty());
            assert(text::pairs(r@) =~= Seq::empty());
        }
        while i < self.hosts.len()
            invariant
                i <= self.hosts@.len(),
                text::pairs(r@) == key_hosts(self.hosts@.take(i as int)),
            decreases self.hosts@.len() - i,
        {
            let h = &self.hosts[i];
            proof {
                assert(self.hosts@.take(i + 1).drop_last() =~= self.hosts@.take(i as int));
                assert(self.hosts@.take(i + 1).last() == *h);
            }
            if !h.plink {
                let ghost before = r@;
                r.push((h.alias.clone(), h.label.clone()));
                proof {
                    assert(text::pairs(r@) =~= text::pairs(before).push((h.alias@, h.label@)));
                }
            }
            i += 1;
        }
        proof {
            assert(self.hosts@.take(i as int) =~= self.hosts@);
        }
        r
    }

    /// What is done for a button of the wizard.
    pub fn wizard(&self, action: WizardAction, ssh_dir: &str, core: bool) -> (r: WizardStep)
        ensures
            is_step(action, self.hosts@, ssh_dir@, core, r),
    {
        match action {
            WizardAction::InstallProfile => WizardStep::InstallProfile,
            WizardAction::OpenSettings => WizardStep::OpenSettings,
            WizardAction::ImportSecureCrt => WizardStep::ImportSecureCrt,
            WizardAction::ImportPutty => WizardStep::ImportPutty,
            WizardAction::CreateKey => if core {
                proof {
                    reveal_strlit("id_ed25519");
                }
                WizardStep::CreateKey(paths::join(ssh_dir, "id_ed25519"))
            } else {
                WizardStep::Nothing
            },
            WizardAction::InstallKeys => {
                let hosts = self.key_hosts();
                proof {
                    assert(text::pairs(hosts@).len() == hosts@.len());
                }
                if hosts.len() > 0 {
                    WizardStep::InstallKeys(hosts)
                } else {
                    WizardStep::Nothing
                }
            },
            WizardAction::MoveFolders(p) => WizardStep::MoveFolders(p),
            WizardAction::AdoptFolders(p) => WizardStep::AdoptFolders(p),
            WizardAction::MoveData(p) => WizardStep::MoveData(p),
            WizardAction::OpenFolder(p) => WizardStep::OpenFolder(p),
            WizardAction::Done => WizardStep::Close { remember: core },
        }
    }
}

/// Keys are offered to every host that SSH reaches, in order.
pub proof fn law_hosts_that_take_keys(hosts: Seq<Host>, h: Host)
    ensures
        key_hosts(Seq::empty()).len() == 0,
        h.plink ==> key_hosts(hosts.push(h)) == key_hosts(hosts),
        !h.plink ==> key_hosts(hosts.push(h)) == key_hosts(hosts).push((h.alias@, h.label@)),
{
    assert(hosts.push(h).drop_last() =~= hosts);
}

/// What each button of the wizard does.
pub proof fn law_wizard_buttons(hosts: Seq<Host>, ssh_dir: Seq<char>, core: bool, step: WizardStep, p: String)
    ensures
        is_step(WizardAction::InstallProfile, hosts, ssh_dir, core, step) ==> step is InstallProfile,
        is_step(WizardAction::OpenSettings, hosts, ssh_dir, core, step) ==> step is OpenSettings,
        is_step(WizardAction::ImportSecureCrt, hosts, ssh_dir, core, step) ==> step is ImportSecureCrt,
        is_step(WizardAction::ImportPutty, hosts, ssh_dir, core, step) ==> step is ImportPutty,
        is_step(WizardAction::CreateKey, hosts, ssh_dir, false, step) ==> step is Nothing,
        is_step(WizardAction::CreateKey, hosts, ssh_dir, true, step) ==> (step matches WizardStep::CreateKey(k)
            && paths::is_joined(k@, ssh_dir, "id_ed25519"@)),
        is_step(WizardAction::InstallKeys, hosts, ssh_dir, core, step) && key_hosts(hosts).len() == 0 ==> step is Nothing,
        is_step(WizardAction::InstallKeys, hosts, ssh_dir, core, step) && key_hosts(hosts).len() > 0 ==> (step
            matches WizardStep::InstallKeys(h) && text::pairs(h@) == key_hosts(hosts)),
        is_step(WizardAction::MoveFolders(p), hosts, ssh_dir, core, step) ==> step == WizardStep::MoveFolders(p),
        is_step(WizardAction::AdoptFolders(p), hosts, ssh_dir, core, step) ==> step == WizardStep::AdoptFolders(p),
        is_step(WizardAction::MoveData(p), hosts, ssh_dir, core, step) ==> step == WizardStep::MoveData(p),
        is_step(WizardAction::OpenFolder(p), hosts, ssh_dir, core, step) ==> step == WizardStep::OpenFolder(p),
        is_step(WizardAction::Done, hosts, ssh_dir, core, step) ==> step == (WizardStep::Close { remember: core }),
{
}

} // verus!
