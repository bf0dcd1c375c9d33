//! Usage counters of the bot's commands. The set of counters is a value
//! handed to whoever counts, rather than process-wide state.

use vstd::prelude::*;

verus! {

/// A named count of events, saturating at its largest value.
pub struct Counter {
    name: String,
    count: u64,
}

impl View for Counter {
    type V = u64;

    /// The number of events counted.
    closed spec fn view(&self) -> u64 {
        self.count
    }
}

impl Counter {
    /// The counter's name.
    pub closed spec fn name_spec(&self) -> Seq<char> {
        self.name@
    }

    pub fn new(name: &str) -> (r: Counter)
        ensures
            r@ == 0,
            r.name_spec() == name@,
    {
        Counter { name: name.to_owned(), count: 0 }
    }

    /// Counts one event.
    pub fn inc(&mut self)
        ensures
            final(self)@ == if old(self)@ < u64::MAX { (old(self)@ + 1) as u64 } else { old(self)@ },
            final(self).name_spec() == old(self).name_spec(),
    {
        if self.count < u64::MAX {
            self.count = self.count + 1;
        }
    }

    pub fn get(&self) -> (r: u64)
        ensures
            r == self@,
    {
        self.count
    }

    pub fn name(&self) -> (r: &str)
        ensures
            r@ == self.name_spec(),
    {
        self.name.as_str()
    }
}

/// Counters of a command that is invoked and later finishes.
pub struct ComplexCommandCounters {
    invoked: Counter,
    finished: Counter,
}

impl ComplexCommandCounters {
    pub closed spec fn invoked_counter(&self) -> Counter {
        self.invoked
    }

    pub closed spec fn finished_counter(&self) -> Counter {
        self.finished
    }

    /// Counts one invocation.
    pub fn invoked(&mut self)
        ensures
            final(self).invoked_counter()@ == if old(self).invoked_counter()@ < u64::MAX {
                (old(self).invoked_counter()@ + 1) as u64
            } else {
                old(self).invoked_counter()@
            },
            final(self).invoked_counter().name_spec() == old(self).invoked_counter().name_spec(),
            final(self).finished_counter() == old(self).finished_counter(),
    {
        self.invoked.inc()
    }

    /// Counts one completion.
    pub fn finished(&mut self)
        ensures
            final(self).finished_counter()@ == if old(self).finished_counter()@ < u64::MAX {
                (old(self).finished_counter()@ + 1) as u64
            } else {
                old(self).finished_counter()@
            },
            final(self).finished_counter().name_spec() == old(self).finished_counter().name_spec(),
            final(self).invoked_counter() == old(self).invoked_counter(),
    {
        self.finished.inc()
    }

    pub fn invoked_count(&self) -> (r: u64)
        ensures
            r == self.invoked_counter()@,
    {
        self.invoked.get()
    }

    pub fn finished_count(&self) -> (r: u64)
        ensures
            r == self.finished_counter()@,
    {
        self.finished.get()
    }
}

/// Counters of a command used from a chat or inline.
pub struct BothModesCounters {
    pub chat: Counter,
    pub inline: Counter,
}

/// Every usage counter of the bot.
pub struct Metrics {
    pub inline: ComplexCommandCounters,
    pub cmd_start: Counter,
    pub cmd_help: Counter,
    pub cmd_grow: BothModesCounters,
    pub cmd_top: BothModesCounters,
    pub cmd_loan: BothModesCounters,
    pub cmd_dod: BothModesCounters,
    pub cmd_pvp: BothModesCounters,
    pub cmd_import: ComplexCommandCounters,
    pub cmd_promo: ComplexCommandCounters,
}

/// The bot's counters, all at zero.
pub fn init() -> (r: Metrics)
    ensures
            r.inline.invoked_counter()@ == 0,
            r.inline.invoked_counter().name_spec() == "inline (query)"@,
            r.inline.finished_counter()@ == 0,
            r.inline.finished_counter().name_spec() == "inline (chosen)"@,
            r.cmd_start@ == 0,
            r.cmd_start.name_spec() == "command_start"@,
            r.cmd_help@ == 0,
            r.cmd_help.name_spec() == "command_help"@,
            r.cmd_grow.chat@ == 0,
            r.cmd_grow.chat.name_spec() == "command_grow (chat)"@,
            r.cmd_grow.inline@ == 0,
            r.cmd_grow.inline.name_spec() == "command_grow (inline)"@,
            r.cmd_top.chat@ == 0,
            r.cmd_top.chat.name_spec() == "command_top (chat)"@,
            r.cmd_top.inline@ == 0,
            r.cmd_top.inline.name_spec() == "command_top (inline)"@,
            r.cmd_loan.chat@ == 0,
            r.cmd_loan.chat.name_spec() == "command_loan (chat)"@,
            r.cmd_loan.inline@ == 0,
            r.cmd_loan.inline.name_spec() == "command_loan (inline)"@,
            r.cmd_dod.chat@ == 0,
            r.cmd_dod.chat.name_spec() == "command_dick_of_day (chat)"@,
            r.cmd_dod.inline@ == 0,
            r.cmd_dod.inline.name_spec() == "command_dick_of_day (inline)"@,
            r.cmd_pvp.chat@ == 0,
            r.cmd_pvp.chat.name_spec() == "command_pvp (chat)"@,
            r.cmd_pvp.inline@ == 0,
            r.cmd_pvp.inline.name_spec() == "command_pvp (inline)"@,
            r.cmd_import.invoked_counter()@ == 0,
            r.cmd_import.invoked_counter().name_spec() == "command_import (invoked)"@,
            r.cmd_import.finished_counter()@ == 0,
            r.cmd_import.finished_counter().name_spec() == "command_import (finished)"@,
            r.cmd_promo.invoked_counter()@ == 0,
            r.cmd_promo.invoked_counter().name_spec() == "command_promo (invoked)"@,
            r.cmd_promo.finished_counter()@ == 0,
            r.cmd_promo.finished_counter().name_spec() == "command_promo (finished)"@,
{
    let inline = ComplexCommandCounters { invoked: Counter::new("inline (query)"), finished: Counter::new("inline (chosen)") };
    let cmd_start = Counter::new("command_start");
    let cmd_help = Counter::new("command_help");
    let cmd_grow = BothModesCounters { chat: Counter::new("command_grow (chat)"), inline: Counter::new("command_grow (inline)") };
    let cmd_top = BothModesCounters { chat: Counter::new("command_top (chat)"), inline: Counter::new("command_top (inline)") };
    let cmd_loan = BothModesCounters { chat: Counter::new("command_loan (chat)"), inline: Counter::new("command_loan (inline)") };
    let cmd_dod = BothModesCounters { chat: Counter::new("command_dick_of_day (chat)"), inline: Counter::new("command_dick_of_day (inline)") };
    let cmd_pvp = BothModesCounters { chat: Counter::new("command_pvp (chat)"), inline: Counter::new("command_pvp (inline)") };
    let cmd_import = ComplexCommandCounters { invoked: Counter::new("command_import (invoked)"), finished: Counter::new("command_import (finished)") };
    let cmd_promo = ComplexCommandCounters { invoked: Counter::new("command_promo (invoked)"), finished: Counter::new("command_promo (finished)") };
    Metrics { inline, cmd_start, cmd_help, cmd_grow, cmd_top, cmd_loan, cmd_dod, cmd_pvp, cmd_import, cmd_promo }
}

} // verus!
