//! Two console tabs, switched in turn, each with a handler that announces it.
use vstd::prelude::*;
use crate::text::{Writer, TEXT_COLOR, all_printable, lemma_print_concat, lemma_print_room};

verus! {

broadcast use vstd::string::group_string_axioms;

/// Number of tabs.
pub const TAB_COUNT: usize = 2;

/// A console tab: its name, the line its handler writes, and its number.
pub struct Tab {
    pub name: &'static str,
    pub handler_text: &'static str,
    pub id: usize,
}

/// The tabs and which of them is current.
pub struct TabHandler {
    tabs: [Tab; 2],
    current_tab: usize,
}

/// Name of tab `i` ("Tab 1" for the first, "Tab 2" for the second).
pub open spec fn tab_name(i: int) -> Seq<char> {
    if i == 0 {
        "Tab 1"@
    } else {
        "Tab 2"@
    }
}

/// What switching to tab `i` writes.
pub open spec fn switch_message(i: int) -> Seq<char> {
    "Switched to "@ + tab_name(i) + "\n"@
}

/// What the handler of tab `i` writes.
pub open spec fn handler_message(i: int) -> Seq<char> {
    tab_name(i) + "\n"@
}

/// The tab that follows tab `i`.
pub open spec fn next_tab(i: int) -> int {
    (i + 1) % TAB_COUNT as int
}

impl TabHandler {
    /// The tabs are "Tab 1" and "Tab 2", numbered 0 and 1, and the current
    /// one is one of them.
    pub closed spec fn wf(&self) -> bool {
        &&& self.current_tab < TAB_COUNT
        &&& forall|i: int| 0 <= i < TAB_COUNT ==> {
            &&& (#[trigger] self.tabs@[i]).name@ == tab_name(i)
            &&& self.tabs@[i].handler_text@ == tab_name(i)
            &&& self.tabs@[i].id == i
        }
    }

    /// Index of the current tab.
    pub closed spec fn current(&self) -> int {
        self.current_tab as int
    }

    /// The two tabs, the first one current.
    pub fn new() -> (handler: TabHandler)
        ensures
            handler.wf(),
            handler.current() == 0,
            0 <= handler.current() < TAB_COUNT,
    {
        TabHandler {
            tabs: [
                Tab { name: "Tab 1", handler_text: "Tab 1", id: 0 },
                Tab { name: "Tab 2", handler_text: "Tab 2", id: 1 },
            ],
            current_tab: 0,
        }
    }

    /// Index of the current tab.
    pub fn current_tab(&self) -> (i: usize)
        ensures
            i == self.current(),
            self.wf() ==> i < TAB_COUNT,
    {
        self.current_tab
    }

    /// The current tab is one of the tabs.
    pub proof fn lemma_current_in_range(&self)
        requires
            self.wf(),
        ensures
            0 <= self.current() < TAB_COUNT,
    {
    }

    /// Two switches bring back the tab that was current.
    pub proof fn lemma_two_switches_restore(&self)
        requires
            self.wf(),
        ensures
            next_tab(next_tab(self.current())) == self.current(),
            next_tab(self.current()) != self.current(),
    {
        lemma_switch_twice(self.current());
    }

    /// Makes the next tab current (after the last comes the first) and
    /// announces it.
    pub fn switch_tab(&mut self, writer: &mut Writer)
        requires
            old(self).wf(),
            old(writer).wf(),
            old(writer)@.room(switch_message(next_tab(old(self).current())).len() as int),
        ensures
            final(self).wf(),
            final(self).current() == next_tab(old(self).current()),
            0 <= final(self).current() < TAB_COUNT,
            final(writer).wf(),
            final(writer)@ == old(writer)@.print(switch_message(final(self).current()), TEXT_COLOR),
    {
        self.current_tab = (self.current_tab + 1) % TAB_COUNT;
        let ghost w0 = writer@;
        let ghost name = tab_name(self.current_tab as int);
        let name_str = self.tabs[self.current_tab].name;
        proof {
            reveal_strlit("Switched to ");
            reveal_strlit("Tab 1");
            reveal_strlit("Tab 2");
            reveal_strlit("\n");
            assert(name_str@ == name);
            assert(all_printable("Switched to "@));
            assert(all_printable(name));
            assert(all_printable("\n"@));
            lemma_print_room(w0, "Switched to "@, TEXT_COLOR, name.len() + 1int);
            lemma_print_room(w0.print("Switched to "@, TEXT_COLOR), name, TEXT_COLOR, 1);
            lemma_print_concat(w0, "Switched to "@, name, TEXT_COLOR);
            lemma_print_concat(w0, "Switched to "@ + name, "\n"@, TEXT_COLOR);
        }
        writer.print("Switched to ", TEXT_COLOR);
        writer.print(name_str, TEXT_COLOR);
        writer.print("\n", TEXT_COLOR);
    }

    /// Runs the handler of the current tab, which writes the tab's name on a line.
    pub fn handle_tab(&self, writer: &mut Writer)
        requires
            self.wf(),
            old(writer).wf(),
            old(writer)@.room(handler_message(self.current()).len() as int),
        ensures
            final(writer).wf(),
            final(writer)@ == old(writer)@.print(handler_message(self.current()), TEXT_COLOR),
            final(writer)@ == old(writer)@.print(tab_name(self.current()) + "\n"@, TEXT_COLOR),
    {
        let ghost w0 = writer@;
        let ghost name = tab_name(self.current_tab as int);
        let text = self.tabs[self.current_tab].handler_text;
        proof {
            reveal_strlit("Tab 1");
            reveal_strlit("Tab 2");
            reveal_strlit("\n");
            assert(text@ == name);
            assert(all_printable(name));
            assert(all_printable("\n"@));
            lemma_print_room(w0, name, TEXT_COLOR, 1);
            lemma_print_concat(w0, name, "\n"@, TEXT_COLOR);
        }
        writer.print(text, TEXT_COLOR);
        writer.print("\n", TEXT_COLOR);
    }
}

/// Each tab's handler writes that tab's own name on a line, so the two
/// tabs' handlers write different lines; the first tab is "Tab 1" and the
/// second "Tab 2".
pub proof fn lemma_handler_writes_own_name(i: int)
    requires
        0 <= i < TAB_COUNT,
    ensures
        handler_message(i) == tab_name(i) + "\n"@,
        handler_message(0) != handler_message(1),
        tab_name(0) == "Tab 1"@,
        tab_name(1) == "Tab 2"@,
        switch_message(i) == "Switched to "@ + tab_name(i) + "\n"@,
{
    reveal_strlit("Tab 1");
    reveal_strlit("Tab 2");
    reveal_strlit("\n");
    assert(handler_message(0)[4] != handler_message(1)[4]);
}

/// Switching tabs twice comes back to the tab one started from.
pub proof fn lemma_switch_twice(i: int)
    requires
        0 <= i < TAB_COUNT,
    ensures
        next_tab(next_tab(i)) == i,
        next_tab(i) != i,
{
}

} // verus!
