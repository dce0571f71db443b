//! What has come in over the standard input, or from the client, and waits to be shown.

use vstd::prelude::*;
use crate::text::chars_of_range;
use crate::text::copy_strings;
use crate::text::owned;
use crate::text::same_text;
use crate::text::string_of;
use crate::text::texts;
use crate::text::to_chars;

verus! {

/// The input that waits.
#[derive(Debug)]
pub struct StdinState {
    /// All items so far.
    pub items: Vec<String>,
    /// Whether something has come in since the last look.
    pub new_data: bool,
    /// How many steps forward were asked for since the last look.
    pub cycle_next: usize,
    /// How many steps back were asked for since the last look.
    pub cycle_prev: usize,
    /// Whether the selected item is to be taken.
    pub select_and_close: bool,
    /// Whether the client has hung up, so that nobody is left to answer.
    pub client_gone: bool,
}

/// The input that waits, in a specification.
#[verifier::ext_equal]
pub struct StdinModel {
    pub items: Seq<Seq<char>>,
    pub new_data: bool,
    pub cycle_next: int,
    pub cycle_prev: int,
    pub select_and_close: bool,
    pub client_gone: bool,
}

impl View for StdinState {
    type V = StdinModel;

    open spec fn view(&self) -> StdinModel {
        StdinModel {
            items: texts(self.items@),
            new_data: self.new_data,
            cycle_next: self.cycle_next as int,
            cycle_prev: self.cycle_prev as int,
            select_and_close: self.select_and_close,
            client_gone: self.client_gone,
        }
    }
}

/// A text without the line feeds at its end.
pub open spec fn without_line_feeds(s: Seq<char>) -> Seq<char>
    decreases s.len(),
{
    if s.len() > 0 && s.last() == '\n' {
        without_line_feeds(s.drop_last())
    } else {
        s
    }
}

/// The input after a line: one of the switcher's three commands, or another item.
pub open spec fn after_line(m: StdinModel, line: Seq<char>) -> StdinModel {
    if line == "__cce_switcher_next__"@ {
        StdinModel { cycle_next: m.cycle_next + 1, new_data: true, ..m }
    } else if line == "__cce_switcher_prev__"@ {
        StdinModel { cycle_prev: m.cycle_prev + 1, new_data: true, ..m }
    } else if line == "__cce_switcher_select_and_close__"@ {
        StdinModel { select_and_close: true, new_data: true, ..m }
    } else {
        StdinModel { items: m.items.push(line), new_data: true, ..m }
    }
}

/// The input after somebody has looked at it: everything but the items is used up.
pub open spec fn after_look(m: StdinModel) -> StdinModel {
    StdinModel {
        new_data: false,
        cycle_next: 0,
        cycle_prev: 0,
        select_and_close: false,
        ..m
    }
}

impl StdinState {
    /// The input with which a session begins.
    pub fn new(items: Vec<String>, new_data: bool) -> (r: StdinState)
        ensures
            r@ == (StdinModel {
                items: texts(items@),
                new_data,
                cycle_next: 0,
                cycle_prev: 0,
                select_and_close: false,
                client_gone: false,
            }),
    {
        StdinState {
            items,
            new_data,
            cycle_next: 0,
            cycle_prev: 0,
            select_and_close: false,
            client_gone: false,
        }
    }

    /// Takes a line.
    pub fn take_line(&mut self, line: &str)
        requires
            old(self).cycle_next < usize::MAX,
            old(self).cycle_prev < usize::MAX,
        ensures
            final(self)@ == after_line(old(self)@, line@),
    {
        if same_text(line, "__cce_switcher_next__") {
            self.cycle_next = self.cycle_next + 1;
        } else if same_text(line, "__cce_switcher_prev__") {
            self.cycle_prev = self.cycle_prev + 1;
        } else if same_text(line, "__cce_switcher_select_and_close__") {
            self.select_and_close = true;
        } else {
            let ghost before = texts(self.items@);
            let item = owned(line);
            self.items.push(item);
            proof {
                assert(texts(self.items@) =~= before.push(line@));
            }
        }
        self.new_data = true;
    }

    /// Takes a line as it came from the client, with the line feed that ends it.
    pub fn take_raw_line(&mut self, raw: &str)
        requires
            old(self).cycle_next < usize::MAX,
            old(self).cycle_prev < usize::MAX,
        ensures
            final(self)@ == after_line(old(self)@, without_line_feeds(raw@)),
    {
        let v = to_chars(raw);
        let mut n = v.len();
        proof {
            assert(v@.take(n as int) =~= v@);
        }
        while n > 0 && v[n - 1] == '\n'
            invariant
                n <= v@.len(),
                v@ == raw@,
                without_line_feeds(v@.take(n as int)) == without_line_feeds(raw@),
            decreases n,
        {
            proof {
                assert(v@.take(n as int).drop_last() =~= v@.take(n - 1));
            }
            n -= 1;
        }
        let rest = chars_of_range(&v, 0, n);
        proof {
            assert(rest@ =~= v@.take(n as int));
        }
        let line = string_of(&rest);
        self.take_line(line.as_str());
    }

    /// Replaces the items.
    pub fn replace_items(&mut self, items: Vec<String>)
        ensures
            final(self)@ == (StdinModel { items: texts(items@), new_data: true, ..old(self)@ }),
    {
        self.items = items;
        self.new_data = true;
    }

    /// Notes that the client has hung up.
    pub fn hang_up(&mut self)
        ensures
            final(self)@ == (StdinModel { client_gone: true, ..old(self)@ }),
    {
        self.client_gone = true;
    }

    /// Hands what is new to `to`. The steps are moved, so that none is taken twice.
    pub fn transfer(&mut self, to: &mut StdinState)
        requires
            old(self).cycle_next + old(to).cycle_next <= usize::MAX,
            old(self).cycle_prev + old(to).cycle_prev <= usize::MAX,
        ensures
            final(self)@ == handed_from(old(self)@),
            final(to)@ == handed_to(old(self)@, old(to)@),
    {
        if self.new_data {
            to.items = copy_strings(&self.items);
            to.cycle_next = to.cycle_next + self.cycle_next;
            self.cycle_next = 0;
            to.cycle_prev = to.cycle_prev + self.cycle_prev;
            self.cycle_prev = 0;
            to.select_and_close = self.select_and_close;
            to.new_data = true;
            self.new_data = false;
        }
    }
}

/// What is left of the input after it has been handed on.
pub open spec fn handed_from(from: StdinModel) -> StdinModel {
    if from.new_data {
        StdinModel { cycle_next: 0, cycle_prev: 0, new_data: false, ..from }
    } else {
        from
    }
}

/// The input to which other input has been handed.
pub open spec fn handed_to(from: StdinModel, to: StdinModel) -> StdinModel {
    if from.new_data {
        StdinModel {
            items: from.items,
            cycle_next: to.cycle_next + from.cycle_next,
            cycle_prev: to.cycle_prev + from.cycle_prev,
            select_and_close: from.select_and_close,
            new_data: true,
            ..to
        }
    } else {
        to
    }
}

/// Handing input on loses no step and doubles none: what both sides hold together stays.
pub proof fn law_transfer_keeps_steps(from: StdinModel, to: StdinModel)
    ensures
        handed_from(from).cycle_next + handed_to(from, to).cycle_next == from.cycle_next
            + to.cycle_next,
        handed_from(from).cycle_prev + handed_to(from, to).cycle_prev == from.cycle_prev
            + to.cycle_prev,
{
}

/// Handing input on a second time, with nothing new in between, changes nothing.
pub proof fn law_transfer_twice(from: StdinModel, to: StdinModel)
    ensures
        handed_from(handed_from(from)) == handed_from(from),
        handed_to(handed_from(from), handed_to(from, to)) == handed_to(from, to),
{
}

/// The three commands of the switcher step ahead, step back and take the selected item; every
/// other line is a further item behind those that are there. Each line is news.
pub proof fn law_lines_are_commands_or_items(m: StdinModel, line: Seq<char>)
    ensures
        after_line(m, "__cce_switcher_next__"@) == (StdinModel {
            cycle_next: m.cycle_next + 1,
            new_data: true,
            ..m
        }),
        after_line(m, "__cce_switcher_prev__"@) == (StdinModel {
            cycle_prev: m.cycle_prev + 1,
            new_data: true,
            ..m
        }),
        after_line(m, "__cce_switcher_select_and_close__"@) == (StdinModel {
            select_and_close: true,
            new_data: true,
            ..m
        }),
        line != "__cce_switcher_next__"@ && line != "__cce_switcher_prev__"@ && line
            != "__cce_switcher_select_and_close__"@ ==> after_line(m, line) == (StdinModel {
            items: m.items.push(line),
            new_data: true,
            ..m
        }),
{
    reveal_strlit("__cce_switcher_next__");
    reveal_strlit("__cce_switcher_prev__");
    reveal_strlit("__cce_switcher_select_and_close__");
    assert("__cce_switcher_next__"@[15] == 'n');
    assert("__cce_switcher_prev__"@[15] == 'p');
    assert("__cce_switcher_select_and_close__"@.len() == 33);
    assert("__cce_switcher_next__"@.len() == 21);
    assert("__cce_switcher_prev__"@.len() == 21);
}

/// Looking at the input uses up the news, the steps and the request, and leaves the items.
pub proof fn law_look_uses_up_all_but_items(m: StdinModel)
    ensures
        after_look(m).items == m.items,
        after_look(m).client_gone == m.client_gone,
        !after_look(m).new_data && !after_look(m).select_and_close,
        after_look(m).cycle_next == 0 && after_look(m).cycle_prev == 0,
{
}

/// Input without news hands nothing on. With news, the items and the request of the one
/// replace those of the other, the steps of both add up, and the one has no news left.
pub proof fn law_news_is_handed_on(from: StdinModel, to: StdinModel)
    ensures
        !from.new_data ==> handed_to(from, to) == to && handed_from(from) == from,
        from.new_data ==> {
            let got = handed_to(from, to);
            &&& got.items == from.items && got.new_data
            &&& got.cycle_next == to.cycle_next + from.cycle_next
            &&& got.cycle_prev == to.cycle_prev + from.cycle_prev
            &&& got.select_and_close == from.select_and_close
            &&& got.client_gone == to.client_gone
            &&& handed_from(from).items == from.items
            &&& !handed_from(from).new_data
            &&& handed_from(from).cycle_next == 0 && handed_from(from).cycle_prev == 0
            &&& handed_from(from).client_gone == from.client_gone
        },
{
}

/// All line feeds at the end of a text go, and nothing else of it.
pub proof fn law_line_feeds_at_end_go(s: Seq<char>, n: nat)
    requires
        s.len() == 0 || s.last() != '\n',
    ensures
        without_line_feeds(s + Seq::new(n, |i: int| '\n')) == s,
    decreases n,
{
    let t = s + Seq::new(n, |i: int| '\n');
    if n == 0 {
        assert(t =~= s);
    } else {
        assert(t.last() == '\n');
        let fewer = (n - 1) as nat;
        assert(t.drop_last() =~= s + Seq::new(fewer, |i: int| '\n'));
        law_line_feeds_at_end_go(s, fewer);
    }
}

} // verus!
