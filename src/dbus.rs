use vstd::prelude::*;
use crate::tabs::TabId;

verus! {

/// A signal for the browsers.
#[derive(Clone, Copy, Debug, PartialEq, Eq, Structural)]
pub enum Command {
    TabClose { pid: u32, tab: i32 },
    TabCreateEmpty { pid: u32 },
    Refresh {},
}

/// The commands the engine issued and that are still to be sent, in order.
pub struct DBus {
    pub commands: Vec<Command>,
}

impl DBus {
    pub fn new() -> (r: DBus)
        ensures
            r.commands@ == Seq::<Command>::empty(),
    {
        DBus { commands: Vec::new() }
    }

    /// Asks browser `tab.pid` to close tab `tab.tab`.
    pub fn tab_close(&mut self, tab: TabId)
        ensures
            final(self).commands@ == old(self).commands@.push(Command::TabClose { pid: tab.pid, tab: tab.tab }),
    {
        self.commands.push(Command::TabClose { pid: tab.pid, tab: tab.tab });
    }

    /// Asks browser `pid` to open one blank tab.
    pub fn tab_create_empty(&mut self, pid: u32)
        ensures
            final(self).commands@ == old(self).commands@.push(Command::TabCreateEmpty { pid }),
    {
        self.commands.push(Command::TabCreateEmpty { pid });
    }

    /// Asks every browser to send its tabs again.
    pub fn refresh(&mut self)
        ensures
            final(self).commands@ == old(self).commands@.push(Command::Refresh {}),
    {
        self.commands.push(Command::Refresh {});
    }

    /// Hands over the pending commands.
    pub fn take(&mut self) -> (r: Vec<Command>)
        ensures
            r@ == old(self).commands@,
            final(self).commands@ == Seq::<Command>::empty(),
    {
        let mut out: Vec<Command> = Vec::new();
        std::mem::swap(&mut out, &mut self.commands);
        out
    }
}

} // verus!
