//! What a session shows on a terminal: the text of each reply, in colour.

use crate::date::render_date;
use crate::number::{decimal_digits, push_decimal};
use crate::session::{Reply, ReplyView};
use vstd::prelude::*;

verus! {

/// `s` in the colour with the given red, green and blue parts: the escape
/// sequence that sets the colour, `s`, and the escape sequence that resets
/// it.
pub open spec fn colored(s: Seq<char>, r: u32, g: u32, b: u32) -> Seq<char> {
    "\x1b[0;38;2;"@ + decimal_digits(r as nat) + ";"@ + decimal_digits(g as nat) + ";"@
        + decimal_digits(b as nat) + "m"@ + s + "\x1b[0m"@
}

/// The main menu: the terminal is cleared, then come the question and the
/// five choices, one on each line.
pub open spec fn menu_text() -> Seq<char> {
    "\x1bc"@ + colored("Please choose what you want to do!"@, 255, 255, 0) + "\n"@ + colored(
        "1: Enter a new birthday date"@,
        0,
        255,
        255,
    ) + "\n"@ + colored("2: Check someone's birthday"@, 250, 0, 0) + "\n"@ + colored(
        "3: Learn whose birthday it's for a certain day"@,
        150,
        150,
        150,
    ) + "\n"@ + colored("4: Debug the dates!"@, 0, 255, 0) + "\n"@ + colored(
        "5: Quit"@,
        0,
        150,
        255,
    ) + "\x1b[0m"@
}

/// The choices that follow an action: the question and the three choices,
/// one on each line.
pub open spec fn next_prompt_text() -> Seq<char> {
    colored("Please choose what you want to do next!"@, 255, 255, 0) + "\n"@ + colored(
        "1: Redo last action"@,
        0,
        255,
        255,
    ) + "\n"@ + colored("2: Open menu"@, 250, 0, 0) + "\n"@ + colored("3: Quit"@, 0, 150, 255)
        + "\x1b[0m"@
}

/// The lines of a listing, each after a line feed and in colour.
pub open spec fn colored_lines(lines: Seq<Seq<char>>) -> Seq<char>
    decreases lines.len(),
{
    if lines.len() == 0 {
        Seq::empty()
    } else {
        colored_lines(lines.drop_last()) + "\n"@ + colored(lines.last(), 255, 255, 0)
    }
}

/// The text that shows `reply`, without a line feed at its end. A request
/// to save shows nothing.
pub open spec fn reply_text(reply: ReplyView) -> Seq<char> {
    match reply {
        ReplyView::Menu => menu_text(),
        ReplyView::NextPrompt => next_prompt_text(),
        ReplyView::UnknownChoice => "Unknown choice"@,
        ReplyView::AskName => colored(
            "Please enter the name of the person you want to enter:"@,
            255,
            0,
            255,
        ),
        ReplyView::AskDate(name) => colored(
            "Please enter the birthdate of "@ + name + ":"@,
            255,
            0,
            255,
        ),
        ReplyView::Added => colored("Done!🎉"@, 0, 255, 255),
        ReplyView::AskLookupName => colored(
            "Please enter the name of the person you want to check (\"print\" to print the names):"@,
            255,
            0,
            255,
        ),
        ReplyView::Birthday(name, date) => colored(
            name + "'s birthday is \""@ + render_date(date) + "\"🎉"@,
            0,
            255,
            255,
        ),
        ReplyView::NameNotFound => "The name is not in the map, restarting..."@,
        ReplyView::AskLookupDate => colored(
            "Please enter the date you want to check:"@,
            255,
            0,
            255,
        ),
        ReplyView::BirthdayOf(name) => colored("It's "@ + name + "'s birthday!🎉"@, 0, 255, 255),
        ReplyView::DateNotFound => colored("Date not found!"@, 255, 0, 0),
        ReplyView::Listing(lines) => "\x1bc"@ + colored("Names & Dates"@, 0, 150, 255)
            + colored_lines(lines),
        ReplyView::Save(_) => Seq::empty(),
    }
}

/// Appends `s` in the given colour to `out`.
pub fn push_colored(out: &mut String, s: &str, r: u32, g: u32, b: u32)
    ensures
        final(out)@ == old(out)@ + colored(s@, r, g, b),
{
    out.append("\x1b[0;38;2;");
    push_decimal(out, r);
    out.append(";");
    push_decimal(out, g);
    out.append(";");
    push_decimal(out, b);
    out.append("m");
    out.append(s);
    out.append("\x1b[0m");
    assert(out@ =~= old(out)@ + colored(s@, r, g, b));
}

/// `s` in the colour with the given red, green and blue parts.
pub fn color_string(s: &str, r: u32, g: u32, b: u32) -> (out: String)
    ensures
        out@ == colored(s@, r, g, b),
{
    let mut out = String::new();
    push_colored(&mut out, s, r, g, b);
    assert(out@ =~= colored(s@, r, g, b));
    out
}

/// The text of the main menu.
pub fn menu() -> (out: String)
    ensures
        out@ == menu_text(),
{
    let mut out = String::new();
    out.append("\x1bc");
    push_colored(&mut out, "Please choose what you want to do!", 255, 255, 0);
    out.append("\n");
    push_colored(&mut out, "1: Enter a new birthday date", 0, 255, 255);
    out.append("\n");
    push_colored(&mut out, "2: Check someone's birthday", 250, 0, 0);
    out.append("\n");
    push_colored(&mut out, "3: Learn whose birthday it's for a certain day", 150, 150, 150);
    out.append("\n");
    push_colored(&mut out, "4: Debug the dates!", 0, 255, 0);
    out.append("\n");
    push_colored(&mut out, "5: Quit", 0, 150, 255);
    out.append("\x1b[0m");
    assert(out@ =~= menu_text());
    out
}

/// The text of the choices that follow an action.
pub fn next_prompt() -> (out: String)
    ensures
        out@ == next_prompt_text(),
{
    let mut out = String::new();
    push_colored(&mut out, "Please choose what you want to do next!", 255, 255, 0);
    out.append("\n");
    push_colored(&mut out, "1: Redo last action", 0, 255, 255);
    out.append("\n");
    push_colored(&mut out, "2: Open menu", 250, 0, 0);
    out.append("\n");
    push_colored(&mut out, "3: Quit", 0, 150, 255);
    out.append("\x1b[0m");
    assert(out@ =~= next_prompt_text());
    out
}

/// The text that shows `reply`, without a line feed at its end.
pub fn render(reply: &Reply) -> (out: String)
    ensures
        out@ == reply_text(reply@),
{
    match reply {
        Reply::Menu => menu(),
        Reply::NextPrompt => next_prompt(),
        Reply::UnknownChoice => "Unknown choice".to_owned(),
        Reply::AskName => color_string(
            "Please enter the name of the person you want to enter:",
            255,
            0,
            255,
        ),
        Reply::AskDate(name) => {
            let mut text = "Please enter the birthdate of ".to_owned();
            text.append(name.as_str());
            text.append(":");
            color_string(text.as_str(), 255, 0, 255)
        },
        Reply::Added => color_string("Done!🎉", 0, 255, 255),
        Reply::AskLookupName => color_string(
            "Please enter the name of the person you want to check (\"print\" to print the names):",
            255,
            0,
            255,
        ),
        Reply::Birthday(name, date) => {
            let mut text = name.clone();
            text.append("'s birthday is \"");
            let date_text = date.format();
            text.append(date_text.as_str());
            text.append("\"🎉");
            color_string(text.as_str(), 0, 255, 255)
        },
        Reply::NameNotFound => "The name is not in the map, restarting...".to_owned(),
        Reply::AskLookupDate => color_string("Please enter the date you want to check:", 255, 0, 255),
        Reply::BirthdayOf(name) => {
            let mut text = "It's ".to_owned();
            text.append(name.as_str());
            text.append("'s birthday!🎉");
            color_string(text.as_str(), 0, 255, 255)
        },
        Reply::DateNotFound => color_string("Date not found!", 255, 0, 0),
        Reply::Listing(lines) => {
            let mut out = String::new();
            out.append("\x1bc");
            push_colored(&mut out, "Names & Dates", 0, 150, 255);
            let ghost head = out@;
            let ghost all = reply@->Listing_0;
            let mut i: usize = 0;
            assert(all.take(0) =~= Seq::<Seq<char>>::empty());
            assert(out@ =~= head + colored_lines(all.take(0)));
            while i < lines.len()
                invariant
                    i <= lines.len(),
                    all.len() == lines.len(),
                    forall|k: int| 0 <= k < lines.len() ==> all[k] == (#[trigger] lines[k])@,
                    out@ == head + colored_lines(all.take(i as int)),
                decreases lines.len() - i,
            {
                out.append("\n");
                push_colored(&mut out, lines[i].as_str(), 255, 255, 0);
                proof {
                    let ghost more = all.take(i + 1);
                    assert(more.drop_last() =~= all.take(i as int));
                    assert(more.last() == lines[i as int]@);
                    assert(out@ =~= head + colored_lines(more));
                }
                i += 1;
            }
            assert(all.take(i as int) =~= all);
            assert(head =~= "\x1bc"@ + colored("Names & Dates"@, 0, 150, 255));
            out
        },
        Reply::Save(_) => String::new(),
    }
}

} // verus!
