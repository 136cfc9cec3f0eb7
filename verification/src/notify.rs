//! What a desktop notification says when a workflow turns red or recovers.

use vstd::prelude::*;

use crate::model::opt_chars;
use crate::state::{Change, Transition};
use crate::text::{chars_of, push_char};

verus! {

/// A desktop notification.
pub struct Notice {
    pub title: String,
    pub body: String,
    /// The system sound to play, if sound is on.
    pub sound: Option<String>,
}

/// The title of the notice for a transition.
pub open spec fn notice_title(workflow: Seq<char>, change: Change) -> Seq<char> {
    match change {
        Change::Broke => "✗ "@ + workflow + " failed"@,
        Change::Recovered => "✓ "@ + workflow + " recovered"@,
    }
}

/// The body of the notice for a transition: the repo and the branch.
pub open spec fn notice_body(repo: Seq<char>, branch: Seq<char>) -> Seq<char> {
    repo + " ("@ + branch + ")"@
}

/// The sound of a transition: `Basso` for a failure, `Glass` for a recovery.
pub open spec fn notice_sound(change: Change) -> Seq<char> {
    match change {
        Change::Broke => "Basso"@,
        Change::Recovered => "Glass"@,
    }
}

/// The notification for a transition on `branch`; silent when `sound` is off.
pub fn notice_for(t: &Transition, branch: &str, sound: bool) -> (n: Notice)
    ensures
        n.title@ == notice_title(t.workflow@, t.change),
        n.body@ == notice_body(t.repo@, branch@),
        sound ==> (n.sound matches Some(s) && s@ == notice_sound(t.change)),
        !sound ==> n.sound is None,
{
    let mut title = String::new();
    match t.change {
        Change::Broke => {
            title.append("✗ ");
            title.append(t.workflow.as_str());
            title.append(" failed");
        },
        Change::Recovered => {
            title.append("✓ ");
            title.append(t.workflow.as_str());
            title.append(" recovered");
        },
    }
    let mut body = t.repo.clone();
    body.append(" (");
    body.append(branch);
    body.append(")");
    let s = if sound {
        Some(
            String::from_str(
                match t.change {
                    Change::Broke => "Basso",
                    Change::Recovered => "Glass",
                },
            ),
        )
    } else {
        None
    };
    Notice { title, body, sound: s }
}

/// The sample notice sent on request, to check that notifications work.
pub open spec fn is_test_notice(n: Notice, sound: bool) -> bool {
    &&& n.title@ == "actiontui"@
    &&& n.body@ == "test notification"@
    &&& (sound ==> (n.sound matches Some(s) && s@ == notice_sound(Change::Recovered)))
    &&& (!sound ==> n.sound is None)
}

/// The sample notice sent on request; silent when `sound` is off.
pub fn test_notice(sound: bool) -> (n: Notice)
    ensures
        is_test_notice(n, sound),
{
    Notice {
        title: String::from_str("actiontui"),
        body: String::from_str("test notification"),
        sound: if sound {
            Some(String::from_str("Glass"))
        } else {
            None
        },
    }
}

/// The characters of `s` escaped for an AppleScript string literal: a
/// backslash before each double quote and each backslash.
pub open spec fn escaped(s: Seq<char>) -> Seq<char>
    decreases s.len(),
{
    if s.len() == 0 {
        Seq::empty()
    } else {
        escaped(s.drop_last()) + if s.last() == '"' || s.last() == '\\' {
            seq!['\\', s.last()]
        } else {
            seq![s.last()]
        }
    }
}

/// `s` as an AppleScript string literal.
pub open spec fn quoted(s: Seq<char>) -> Seq<char> {
    seq!['"'] + escaped(s) + seq!['"']
}

/// The AppleScript that shows a notice: its body, its title and, if it has
/// one, its sound.
pub open spec fn script_text(title: Seq<char>, body: Seq<char>, sound: Option<Seq<char>>) -> Seq<char> {
    "display notification "@ + quoted(body) + " with title "@ + quoted(title) + match sound {
        Some(snd) => " sound name "@ + quoted(snd),
        None => Seq::empty(),
    }
}

fn push_quoted(out: &mut String, s: &str)
    ensures
        final(out)@ == old(out)@ + quoted(s@),
{
    let v = chars_of(s);
    let ghost start = out@;
    push_char(out, '"');
    for i in 0..v.len()
        invariant
            v@ == s@,
            out@ == start + seq!['"'] + escaped(v@.take(i as int)),
    {
        let c = v[i];
        assert(v@.take(i + 1).drop_last() =~= v@.take(i as int));
        if c == '"' || c == '\\' {
            push_char(out, '\\');
        }
        push_char(out, c);
        assert(out@ =~= start + seq!['"'] + escaped(v@.take(i + 1)));
    }
    assert(v@.take(v.len() as int) =~= v@);
    push_char(out, '"');
    assert(out@ =~= start + quoted(s@));
}

/// The AppleScript that shows the notice.
pub fn notice_script(n: &Notice) -> (script: String)
    ensures
        script@ == script_text(n.title@, n.body@, opt_chars(n.sound)),
{
    let mut out = String::from_str("display notification ");
    push_quoted(&mut out, n.body.as_str());
    out.append(" with title ");
    push_quoted(&mut out, n.title.as_str());
    match &n.sound {
        Some(snd) => {
            out.append(" sound name ");
            push_quoted(&mut out, snd.as_str());
        },
        None => {},
    }
    out
}

} // verus!
