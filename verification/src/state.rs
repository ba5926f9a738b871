//! The application's state: its configuration, its menu, the commands that
//! are running and whether the window is in use.

use vstd::prelude::*;
use crate::config::AppConfig;

verus! {

/// A command that was started and has not been stopped.
#[derive(Debug, Clone, PartialEq, Eq)]
pub struct RunningCommand {
    pub command_id: String,
    pub command_value: String,
    pub pid: u32,
}

/// The state shared by the tray and the window.  `M` is the menu that the
/// window toolkit built.
pub struct AppStateInner<M> {
    pub config: AppConfig,
    pub menu: Option<M>,
    pub running_commands: Vec<RunningCommand>,
    pub view_visible: bool,
}

/// Index of the first running command, at or after `i`, with identifier `id`.
pub open spec fn running_index(cmds: Seq<RunningCommand>, id: Seq<char>, i: int) -> Option<int>
    decreases cmds.len() - i,
{
    if i < 0 || i >= cmds.len() {
        None
    } else if cmds[i].command_id@ == id {
        Some(i)
    } else {
        running_index(cmds, id, i + 1)
    }
}

impl<M> AppStateInner<M> {
    /// The state at start-up: the configuration read, no menu yet, nothing
    /// running, the window not in use.
    pub fn new(config: AppConfig) -> (s: Self)
        ensures
            s.config == config,
            s.menu is None,
            s.running_commands@.len() == 0,
            !s.view_visible,
    {
        AppStateInner { config, menu: None, running_commands: Vec::new(), view_visible: false }
    }

    /// Records a started command and marks the window as in use.
    pub fn register_command(&mut self, command_id: String, command_value: String, pid: u32)
        ensures
            final(self).view_visible,
            final(self).running_commands@ == old(self).running_commands@.push(
                RunningCommand { command_id, command_value, pid },
            ),
            final(self).config == old(self).config,
            final(self).menu == old(self).menu,
    {
        self.view_visible = true;
        self.running_commands.push(RunningCommand { command_id, command_value, pid });
    }

    /// Takes the first running command with identifier `command_id` out of
    /// the state and returns it; the state is unchanged when there is none.
    pub fn stop_command(&mut self, command_id: &String) -> (r: Option<RunningCommand>)
        ensures
            match running_index(old(self).running_commands@, command_id@, 0) {
                Some(p) => r == Some(old(self).running_commands@[p]) && final(self).running_commands@
                    == old(self).running_commands@.remove(p),
                None => r is None && final(self).running_commands@ == old(self).running_commands@,
            },
            r is Some <==> exists|j: int|
                0 <= j < old(self).running_commands@.len() && #[trigger] old(self).running_commands@[j].command_id@
                    == command_id@,
            r matches Some(c) ==> c.command_id@ == command_id@,
            final(self).view_visible == old(self).view_visible,
            final(self).config == old(self).config,
            final(self).menu == old(self).menu,
    {
        proof {
            lemma_stop_finds_first(self.running_commands@, command_id@);
        }
        let mut i: usize = 0;
        while i < self.running_commands.len()
            invariant
                i <= self.running_commands.len(),
                self.running_commands@ == old(self).running_commands@,
                self.view_visible == old(self).view_visible,
                self.config == old(self).config,
                self.menu == old(self).menu,
                running_index(self.running_commands@, command_id@, 0) == running_index(
                    self.running_commands@,
                    command_id@,
                    i as int,
                ),
            decreases self.running_commands.len() - i,
        {
            if self.running_commands[i].command_id == *command_id {
                let c = self.running_commands.remove(i);
                return Some(c);
            }
            i = i + 1;
        }
        None
    }

    /// The window was closed: unless tabs stay open, it is no longer in use.
    pub fn hide_view(&mut self, open_tabs: bool)
        ensures
            final(self).view_visible == (old(self).view_visible && open_tabs),
            final(self).running_commands@ == old(self).running_commands@,
            final(self).config == old(self).config,
            final(self).menu == old(self).menu,
    {
        if !open_tabs {
            self.view_visible = false;
        }
    }
}

/// Stopping a command right after starting it, under an identifier that no
/// running command has, finds that command and leaves the running commands
/// as they were before it started.
pub proof fn lemma_stop_undoes_register(before: Seq<RunningCommand>, c: RunningCommand)
    requires
        running_index(before, c.command_id@, 0) is None,
    ensures
        running_index(before.push(c), c.command_id@, 0) == Some(before.len() as int),
        before.push(c).remove(before.len() as int) == before,
{
    let after = before.push(c);
    lemma_running_index_prefix(before, c, 0);
    assert(after.remove(before.len() as int) =~= before);
}

proof fn lemma_running_index_prefix(before: Seq<RunningCommand>, c: RunningCommand, i: int)
    requires
        0 <= i <= before.len(),
        running_index(before, c.command_id@, i) is None,
    ensures
        running_index(before.push(c), c.command_id@, i) == Some(before.len() as int),
    decreases before.len() - i,
{
    let after = before.push(c);
    if i < before.len() {
        assert(after[i] == before[i]);
        lemma_running_index_prefix(before, c, i + 1);
    } else {
        assert(after[i] == c);
    }
}

proof fn lemma_running_index_from(cmds: Seq<RunningCommand>, id: Seq<char>, i: int)
    requires
        0 <= i,
    ensures
        running_index(cmds, id, i) is None <==> forall|j: int| i <= j < cmds.len() ==> #[trigger] cmds[j].command_id@ != id,
        running_index(cmds, id, i) matches Some(p) ==> i <= p < cmds.len() && cmds[p].command_id@ == id && forall|j: int|
            i <= j < p ==> #[trigger] cmds[j].command_id@ != id,
    decreases cmds.len() - i,
{
    if i < cmds.len() && cmds[i].command_id@ != id {
        lemma_running_index_from(cmds, id, i + 1);
    }
}

/// The running command that `stop_command` takes out is found by a search of
/// every running command: there is one exactly when some running command has
/// the identifier, and it is the first of them.
pub proof fn lemma_stop_finds_first(cmds: Seq<RunningCommand>, id: Seq<char>)
    ensures
        running_index(cmds, id, 0) is Some <==> exists|j: int| 0 <= j < cmds.len() && #[trigger] cmds[j].command_id@ == id,
        running_index(cmds, id, 0) matches Some(p) ==> 0 <= p < cmds.len() && cmds[p].command_id@ == id && forall|j: int|
            0 <= j < p ==> #[trigger] cmds[j].command_id@ != id,
{
    lemma_running_index_from(cmds, id, 0);
}

} // verus!
