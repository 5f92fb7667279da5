//! What the client shows on a terminal in raw mode.

use vstd::prelude::*;
use vstd::string::StringExecFns;

verus! {

/// The message with every line feed turned into a carriage return and a line feed.
pub open spec fn canonical(msg: Seq<char>) -> Seq<char>
    decreases msg.len(),
{
    if msg.len() == 0 {
        seq![]
    } else if msg.last() == '\n' {
        canonical(msg.drop_last()) + seq!['\r', '\n']
    } else {
        canonical(msg.drop_last()).push(msg.last())
    }
}

/// What is written for a message: its canonical form, and the end of the line.
pub open spec fn line(msg: Seq<char>) -> Seq<char> {
    canonical(msg) + seq!['\r', '\n']
}

/// What is written for the messages, one after the other.
pub open spec fn lines(msgs: Seq<Seq<char>>) -> Seq<char>
    decreases msgs.len(),
{
    if msgs.len() == 0 {
        seq![]
    } else {
        lines(msgs.drop_last()) + line(msgs.last())
    }
}

/// The text that shows `msg` on standard output.
pub fn print_msg(msg: &str) -> (res: String)
    ensures
        res@ == line(msg@),
{
    terminal_line(msg)
}

/// The text that shows `msg` on standard error.
pub fn eprint_msg(msg: &str) -> (res: String)
    ensures
        res@ == line(msg@),
{
    terminal_line(msg)
}

fn terminal_line(msg: &str) -> (res: String)
    ensures
        res@ == line(msg@),
{
    let mut res = String::new();
    for c in it: msg.chars()
        invariant
            it.seq() == msg@,
            res@ == canonical(msg@.take(it.index() as int)),
    {
        proof {
            let done = msg@.take(it.index() as int);
            assert(msg@.take(it.index() + 1).drop_last() =~= done);
            assert(msg@.take(it.index() + 1).last() == c);
        }
        if c == '\n' {
            res.push('\r');
        }
        res.push(c);
        assert(c == '\n' ==> res@ =~= canonical(msg@.take(it.index() + 1)));
    }
    assert(msg@.take(msg@.len() as int) =~= msg@);
    res.push('\r');
    res.push('\n');
    assert(res@ =~= line(msg@));
    res
}

/// Appends what shows `msg` to what is shown already.
pub fn show(shown: &mut String, msg: &str)
    ensures
        final(shown)@ == old(shown)@ + line(msg@),
{
    let text = print_msg(msg);
    shown.append(text.as_str());
}

/// The messages of the help.
pub open spec fn help() -> Seq<Seq<char>> {
    seq![
        "The following keyboard shortcuts are available:"@,
        "  - Hit \"p\" to print current balance"@,
        "  - Hit \"s\" to sell all available balance for trading coins"@,
        "  - Hit \"h\" or \"?\" to print this help"@,
        "  - Hit Esc or Ctrl-C to quit"@,
    ]
}

/// The text that shows the keyboard shortcuts.
pub fn print_help() -> (res: String)
    ensures
        res@ == lines(help()),
{
    let mut shown = String::new();
    show(&mut shown, "The following keyboard shortcuts are available:");
    show(&mut shown, "  - Hit \"p\" to print current balance");
    show(&mut shown, "  - Hit \"s\" to sell all available balance for trading coins");
    show(&mut shown, "  - Hit \"h\" or \"?\" to print this help");
    show(&mut shown, "  - Hit Esc or Ctrl-C to quit");
    proof {
        let h = help();
        reveal_with_fuel(lines, 6);
        assert(h.drop_last().drop_last().drop_last().drop_last().drop_last() =~= seq![]);
    }
    shown
}

/// Whether every line feed directly follows a carriage return.
pub open spec fn is_canonical(text: Seq<char>) -> bool {
    forall|i: int|
        0 <= i < text.len() && #[trigger] text[i] == '\n' ==> i > 0 && text[i - 1] == '\r'
}

/// Whatever is shown, a line feed never comes without its carriage return.
pub proof fn law_shown_lines_are_canonical(msg: Seq<char>)
    ensures
        is_canonical(line(msg)),
{
    lemma_canonical(msg);
}

proof fn lemma_canonical(msg: Seq<char>)
    ensures
        is_canonical(canonical(msg)),
    decreases msg.len(),
{
    if msg.len() > 0 {
        lemma_canonical(msg.drop_last());
        let before = canonical(msg.drop_last());
        if msg.last() == '\n' {
            let after = before + seq!['\r', '\n'];
            assert forall|i: int| 0 <= i < after.len() && #[trigger] after[i] == '\n' implies i > 0
                && after[i - 1] == '\r' by {
                if i < before.len() {
                    assert(before[i] == '\n');
                }
            }
        } else {
            let after = before.push(msg.last());
            assert forall|i: int| 0 <= i < after.len() && #[trigger] after[i] == '\n' implies i > 0
                && after[i - 1] == '\r' by {
                if i < before.len() {
                    assert(before[i] == '\n');
                }
            }
        }
    }
}

/// A message without line feeds is shown as it is, and ends its line.
pub proof fn law_plain_messages_are_unchanged(msg: Seq<char>)
    requires
        !msg.contains('\n'),
    ensures
        line(msg) == msg + seq!['\r', '\n'],
{
    lemma_plain(msg);
}

/// A line feed in a message ends a line: what is before and after it is shown as two messages.
pub proof fn law_line_feeds_part_messages(a: Seq<char>, b: Seq<char>)
    ensures
        line(a + seq!['\n'] + b) == line(a) + line(b),
{
    lemma_parted(a, b);
}

proof fn lemma_parted(a: Seq<char>, b: Seq<char>)
    ensures
        canonical(a + seq!['\n'] + b) == line(a) + canonical(b),
    decreases b.len(),
{
    let whole = a + seq!['\n'] + b;
    if b.len() == 0 {
        assert(whole.drop_last() =~= a);
        assert(line(a) + canonical(b) =~= line(a));
    } else {
        lemma_parted(a, b.drop_last());
        assert(whole.drop_last() =~= a + seq!['\n'] + b.drop_last());
        assert(whole.last() == b.last());
        assert(canonical(whole) =~= line(a) + canonical(b));
    }
}

proof fn lemma_plain(msg: Seq<char>)
    requires
        !msg.contains('\n'),
    ensures
        canonical(msg) == msg,
    decreases msg.len(),
{
    if msg.len() > 0 {
        assert(msg.contains(msg.last()));
        assert forall|c: char| msg.drop_last().contains(c) implies msg.contains(c) by {
            let i = choose|i: int| 0 <= i < msg.len() - 1 && msg.drop_last()[i] == c;
            assert(msg[i] == c);
        }
        lemma_plain(msg.drop_last());
        assert(msg.drop_last().push(msg.last()) =~= msg);
    } else {
        assert(msg =~= seq![]);
    }
}

/// Messages are shown one after the other, each on its line, and none is left out.
pub proof fn law_lines_are_shown_in_turn(msgs: Seq<Seq<char>>, msg: Seq<char>)
    ensures
        lines(seq![]) == Seq::<char>::empty(),
        lines(msgs.push(msg)) == lines(msgs) + line(msg),
{
    assert(msgs.push(msg).drop_last() =~= msgs);
}

/// Both outputs show a message in the same way: a message without line feeds as it is, and what is
/// before and after a line feed as two messages.
pub proof fn law_outputs_show_alike(
    msg: &str,
    out: String,
    err: String,
    before: Seq<char>,
    after: Seq<char>,
)
    requires
        call_ensures(print_msg, (msg,), out),
        call_ensures(eprint_msg, (msg,), err),
    ensures
        out@ == err@,
        !msg@.contains('\n') ==> out@ == msg@ + seq!['\r', '\n'],
        msg@ == before + seq!['\n'] + after ==> out@ == line(before) + line(after),
{
    if !msg@.contains('\n') {
        law_plain_messages_are_unchanged(msg@);
    }
    if msg@ == before + seq!['\n'] + after {
        law_line_feeds_part_messages(before, after);
    }
}

/// Showing one more message keeps what was shown, and appends what is written for the message.
pub proof fn law_shown_messages_stay(shown: &mut String, msg: &str, out: String)
    requires
        call_ensures(show, (shown, msg), ()),
        call_ensures(print_msg, (msg,), out),
    ensures
        final(shown)@ == old(shown)@ + out@,
{
}

/// The help names every key that does something, on five lines.
pub proof fn law_help_names_the_keys(res: String)
    requires
        call_ensures(print_help, (), res),
    ensures
        res@ == line("The following keyboard shortcuts are available:"@) + line(
            "  - Hit \"p\" to print current balance"@,
        ) + line("  - Hit \"s\" to sell all available balance for trading coins"@) + line(
            "  - Hit \"h\" or \"?\" to print this help"@,
        ) + line("  - Hit Esc or Ctrl-C to quit"@),
{
    let h = help();
    reveal_with_fuel(lines, 6);
    assert(h.drop_last().drop_last().drop_last().drop_last().drop_last() =~= seq![]);
    assert(lines(seq![]) + line(h[0]) =~= line(h[0]));
}

} // verus!
