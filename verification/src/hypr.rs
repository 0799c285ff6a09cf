//! Hyprland: the focused window, and the events of its `socket2` stream.
use vstd::prelude::*;
use crate::text::{
    chars_of, contains, eq_chars, is_first_occurrence, lemma_first_occurrence_unique, occurs_at,
    split_once, split_once_exec, string_of,
};

verus! {

/// The window that has the keyboard focus.
#[derive(Debug, Clone, PartialEq, Eq)]
pub struct ActiveWindow {
    pub class: String,
    pub title: String,
}

/// An event line of Hyprland's event socket.
#[derive(Debug, Clone, PartialEq, Eq)]
pub enum HyprEvent {
    ActiveWindow { class: String, title: String },
    Other(String),
}

/// The focused window from the `class` and `title` fields of
/// `hyprctl activewindow -j`: a missing class reads `unknown`, a missing
/// title the empty string.
pub fn active_window_from(class: Option<String>, title: Option<String>) -> (r: ActiveWindow)
    ensures
        r.class@ == match class {
            Some(c) => c@,
            None => "unknown"@,
        },
        r.title@ == match title {
            Some(t) => t@,
            None => Seq::<char>::empty(),
        },
{
    ActiveWindow {
        class: match class {
            Some(c) => c,
            None => String::from_str("unknown"),
        },
        title: match title {
            Some(t) => t,
            None => String::new(),
        },
    }
}

/// What `parse_event` makes of an event line: `activewindow>>CLASS,TITLE`
/// gives the focused window (the title is everything after the first comma;
/// an empty class reads `unknown`); every other line gives nothing.
pub open spec fn parsed_event(line: Seq<char>) -> Option<(Seq<char>, Seq<char>)> {
    match split_once(line, ">>"@) {
        Some((tag, rest)) => if tag == "activewindow"@ {
            let (cls, title) = match split_once(rest, ","@) {
                Some((c, t)) => (c, t),
                None => (rest, Seq::<char>::empty()),
            };
            Some((if cls.len() == 0 { "unknown"@ } else { cls }, title))
        } else {
            None
        },
        None => None,
    }
}

/// Parses one line of Hyprland's event socket.
pub fn parse_event(line: &str) -> (r: Option<HyprEvent>)
    ensures
        match parsed_event(line@) {
            Some((c, t)) => r matches Some(HyprEvent::ActiveWindow { class, title }) && class@ == c
                && title@ == t,
            None => r is None,
        },
{
    let l = chars_of(line);
    match split_once_exec(&l, &chars_of(">>")) {
        Some((tag, rest)) => {
            if !eq_chars(&tag, &chars_of("activewindow")) {
                return None;
            }
            let (cls, title) = match split_once_exec(&rest, &chars_of(",")) {
                Some((c, t)) => (c, t),
                None => (rest, Vec::new()),
            };
            let cls = if cls.len() == 0 { chars_of("unknown") } else { cls };
            Some(HyprEvent::ActiveWindow { class: string_of(&cls), title: string_of(&title) })
        },
        None => None,
    }
}

/// A focus event reads back as the window it announces: Hyprland writes
/// `activewindow>>CLASS,TITLE`, and a non-empty class without commas comes
/// back unchanged, with the whole title, commas and `>>` included.
pub proof fn law_focus_event_round_trip(class: Seq<char>, title: Seq<char>)
    requires
        class.len() > 0,
        !class.contains(','),
    ensures
        parsed_event("activewindow"@ + ">>"@ + class + ","@ + title) == Some((class, title)),
{
    reveal_strlit("activewindow");
    reveal_strlit(">>");
    reveal_strlit(",");
    let tag = "activewindow"@;
    let sep = ">>"@;
    let comma = ","@;
    let line = tag + sep + class + comma + title;
    let rest = class + comma + title;
    assert(tag.len() == 12);
    assert(sep.len() == 2);
    assert(comma.len() == 1);
    // The first `>>` is the one after the tag: the tag holds no `>`.
    assert(line.subrange(12, 14) =~= sep);
    assert forall|j: int| 0 <= j < 12 implies !occurs_at(line, sep, j) by {
        assert(line[j] == tag[j]);
        assert(line.subrange(j, j + 2)[0] == line[j]);
    }
    assert(is_first_occurrence(line, sep, 12));
    lemma_first_occurrence_unique(line, sep, 12);
    assert(line.subrange(0, 12) =~= tag);
    assert(line.subrange(14, line.len() as int) =~= rest);
    // The first comma of the rest is the one after the class.
    let n = class.len() as int;
    assert(rest.subrange(n, n + 1) =~= comma);
    assert forall|j: int| 0 <= j < n implies !occurs_at(rest, comma, j) by {
        assert(rest[j] == class[j]);
        assert(rest.subrange(j, j + 1)[0] == rest[j]);
        if rest[j] == ',' {
            assert(class.contains(','));
        }
    }
    assert(is_first_occurrence(rest, comma, n));
    lemma_first_occurrence_unique(rest, comma, n);
    assert(rest.subrange(0, n) =~= class);
    assert(rest.subrange(n + 1, rest.len() as int) =~= title);
}

} // verus!
