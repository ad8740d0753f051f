//! The text of a task: its line in a listing, and the detailed view of one
//! task.
use vstd::prelude::*;

use crate::due::{due_shown, format_due_date};
use crate::formatting::{
    bold, bold_code, bright_black, decimal, decimal_text, grey_code, lemma_decimal_no_escape,
    no_escape, replaced, shown,
};
use crate::objects::{Task, TaskState, Timestamp};

verus! {

/// Relies on str::replace: each non-overlapping occurrence of `from`, found
/// from the left, replaced by `to`.
#[verifier::external_body]
fn replace(s: &str, from: &str, to: &str) -> (r: String)
    requires
        from@.len() > 0,
    ensures
        r@ == replaced(s@, from@, to@),
{
    s.replace(from, to)
}

/// The check box of a task in a given state.
pub open spec fn check_box(state: TaskState) -> Seq<char> {
    match state {
        TaskState::Todo => "[ ]"@,
        TaskState::Done => "[X]"@,
    }
}

/// The id as a listing shows it: `#` and its digits.
pub open spec fn id_text(id: nat) -> Seq<char> {
    "#"@ + decimal(id)
}

/// The task line once `%b` and `%d` of the format are filled in.
pub open spec fn filled(format: Seq<char>, t: Task) -> Seq<char> {
    replaced(replaced(format, "%b"@, check_box(t.state)), "%d"@, t.description@)
}

/// The line of the task `t` with id `id` under the format `format`, as seen
/// at `now`: `%b` becomes its check box and `%d` its description, the whole
/// greyed out when it is done; `%i` becomes its id in grey; `%D` how far away
/// its due date is, or, without a due date, `-> %D` disappears.
pub open spec fn task_line(r: Seq<char>, format: Seq<char>, t: Task, id: nat, now: Timestamp) -> bool {
    exists|body: Seq<char>, idt: Seq<char>|
        #![trigger replaced(body, "%i"@, idt)]
        (t.state == TaskState::Todo ==> body == filled(format, t)) && (t.state == TaskState::Done
            ==> (no_escape(filled(format, t)) ==> shown(body, grey_code(), filled(format, t))))
            && shown(idt, grey_code(), id_text(id)) && match t.due {
            Some(d) => exists|due_text: Seq<char>|
                #![trigger due_shown(due_text, d, now)]
                due_shown(due_text, d, now) && r == replaced(
                    replaced(body, "%i"@, idt),
                    "%D"@,
                    due_text,
                ),
            None => r == replaced(replaced(body, "%i"@, idt), "-> %D"@, Seq::empty()),
        }
}

/// A task's line in a listing, under the display format `format_string`.
pub fn format_task(format_string: &String, to_format: &Task, id: usize, now: Timestamp) -> (r:
    String)
    ensures
        task_line(r@, format_string@, *to_format, id as nat, now),
{
    proof {
        reveal_strlit("%b");
        reveal_strlit("%d");
        reveal_strlit("%i");
        reveal_strlit("%D");
        reveal_strlit("-> %D");
        reveal_strlit("#");
    }
    let check = match to_format.state {
        TaskState::Todo => "[ ]",
        TaskState::Done => "[X]",
    };
    let with_box = replace(format_string.as_str(), "%b", check);
    let with_description = replace(with_box.as_str(), "%d", to_format.description.as_str());
    let body = match to_format.state {
        TaskState::Todo => with_description,
        TaskState::Done => bright_black(with_description.as_str()),
    };
    let digits = String::from_str("#").concat(decimal_text(id as u64).as_str());
    proof {
        lemma_decimal_no_escape(id as nat);
        reveal_strlit("#");
        assert(digits@ == id_text(id as nat));
        assert forall|i: int| 0 <= i < digits@.len() implies digits@[i] != '\x1b' by {
            if i > 0 {
                assert(digits@[i] == decimal(id as nat)[i - 1]);
            }
        }
    }
    let idt = bright_black(digits.as_str());
    let with_id = replace(body.as_str(), "%i", idt.as_str());
    match to_format.due {
        Some(d) => {
            let due_text = format_due_date(d, now);
            let r = replace(with_id.as_str(), "%D", due_text.as_str());
            assert(shown(idt@, grey_code(), id_text(id as nat)));
            assert(due_shown(due_text@, to_format.due->0, now));
            r
        },
        None => {
            let r = replace(with_id.as_str(), "-> %D", "");
            proof {
                reveal_strlit("");
                assert(""@ =~= Seq::<char>::empty());
            }
            assert(shown(idt@, grey_code(), id_text(id as nat)));
            r
        },
    }
}

/// `r` shows `s` in grey when `s` holds no escape character.
pub open spec fn grey(r: Seq<char>, s: Seq<char>) -> bool {
    no_escape(s) ==> shown(r, grey_code(), s)
}

/// The detailed view of the task `t` with id `id` as seen at `now`, where
/// `local_due` is its due date written in local time: its check box and
/// description in bold; its due date, relative and local, or "None"; its
/// category, or "None"; its id; and its information, or "No information."
/// in grey.
pub open spec fn spotlight(
    r: Seq<char>,
    t: Task,
    id: nat,
    now: Timestamp,
    local_due: Seq<char>,
) -> bool {
    exists|desc: Seq<char>, due_label: Seq<char>, due_part: Seq<char>, cat: Seq<char>, idl: Seq<char>, info: Seq<char>|
        #![trigger spotlight_parts(r, t, desc, due_label, due_part, cat, idl, info)]
        spotlight_parts(r, t, desc, due_label, due_part, cat, idl, info) && (no_escape(
            t.description@,
        ) ==> shown(desc, bold_code(), t.description@)) && grey(due_label, "Due: "@) && match t.due {
            Some(d) => exists|rel: Seq<char>, loc: Seq<char>|
                #![trigger due_shown(rel, d, now), grey(loc, " ("@ + local_due + ")"@)]
                due_shown(rel, d, now) && grey(loc, " ("@ + local_due + ")"@) && due_part == rel + loc,
            None => grey(due_part, "None"@),
        } && grey(
            cat,
            "category: "@ + match t.category {
                Some(c) => c@,
                None => "None"@,
            } + "\n"@,
        ) && grey(idl, "id: #"@ + decimal(id) + "\n"@) && match t.information {
            Some(i) => info == i@,
            None => grey(info, "No information."@),
        }
}

/// How the pieces of a detailed view are put together.
pub open spec fn spotlight_parts(
    r: Seq<char>,
    t: Task,
    desc: Seq<char>,
    due_label: Seq<char>,
    due_part: Seq<char>,
    cat: Seq<char>,
    idl: Seq<char>,
    info: Seq<char>,
) -> bool {
    r == "\n"@ + check_box(t.state) + " "@ + desc + "\n"@ + due_label + due_part + "\n"@ + cat + idl
        + "\n"@ + info + "\n"@
}

/// The detailed view of one task; `local_due` is its due date written in
/// local time, used only when it has one.
pub fn format_task_spotlight(task: &Task, id: usize, now: Timestamp, local_due: &String) -> (r:
    String)
    ensures
        spotlight(r@, *task, id as nat, now, local_due@),
{
    let mut new_string = String::from_str("\n");
    match task.state {
        TaskState::Todo => new_string.append("[ ] "),
        TaskState::Done => new_string.append("[X] "),
    }
    let desc = bold(task.description.as_str());
    new_string.append(desc.as_str());
    new_string.append("\n");
    let due_label = bright_black("Due: ");
    new_string.append(due_label.as_str());
    let ghost mut rel = Seq::<char>::empty();
    let ghost mut loc = Seq::<char>::empty();
    let due_part = match task.due {
        Some(d) => {
            let relative = format_due_date(d, now);
            let local = String::from_str(" (").concat(local_due.as_str()).concat(")");
            let local_grey = bright_black(local.as_str());
            proof {
                rel = relative@;
                loc = local_grey@;
            }
            relative.concat(local_grey.as_str())
        },
        None => bright_black("None"),
    };
    new_string.append(due_part.as_str());
    new_string.append("\n");
    let category_text = match &task.category {
        Some(c) => String::from_str("category: ").concat(c.as_str()).concat("\n"),
        None => String::from_str("category: None\n"),
    };
    let cat = bright_black(category_text.as_str());
    new_string.append(cat.as_str());
    let id_text = String::from_str("id: #").concat(decimal_text(id as u64).as_str()).concat("\n");
    let idl = bright_black(id_text.as_str());
    new_string.append(idl.as_str());
    new_string.append("\n");
    let info = match &task.information {
        Some(i) => i.clone(),
        None => bright_black("No information."),
    };
    new_string.append(info.as_str());
    new_string.append("\n");
    proof {
        reveal_strlit("category: None\n");
        reveal_strlit("category: ");
        reveal_strlit("None");
        reveal_strlit("\n");
        assert(category_text@ == "category: "@ + match task.category {
            Some(c) => c@,
            None => "None"@,
        } + "\n"@);
        reveal_strlit("[ ] ");
        reveal_strlit("[X] ");
        reveal_strlit("[ ]");
        reveal_strlit("[X]");
        reveal_strlit(" ");
        assert(new_string@ =~= "\n"@ + check_box(task.state) + " "@ + desc@ + "\n"@ + due_label@ + due_part@ + "\n"@ + cat@ + idl@
            + "\n"@ + info@ + "\n"@);
        assert(spotlight_parts(new_string@, *task, desc@, due_label@, due_part@, cat@, idl@, info@));
        assert(no_escape(task.description@) ==> shown(desc@, bold_code(), task.description@));
        assert(grey(due_label@, "Due: "@));
        assert(grey(idl@, "id: #"@ + decimal(id as nat) + "\n"@));
        assert(grey(cat@, category_text@));
        match &task.information {
            Some(i) => assert(info@ == i@),
            None => assert(grey(info@, "No information."@)),
        }
        match task.due {
            Some(d) => {
                assert(due_shown(rel, d, now));
                assert(grey(loc, " ("@ + local_due@ + ")"@));
                assert(due_part@ == rel + loc);
            },
            None => {
                assert(grey(due_part@, "None"@));
            },
        }
    }
    new_string
}

} // verus!
