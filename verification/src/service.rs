//! The desktop companion's control of the system service: the status it shows and the
//! privileged shell commands it runs through AppleScript.
use vstd::prelude::*;

use crate::text::{chars_of, push_chars, string_push};

verus! {

/// Whether the service runs, with a message for the user.
#[derive(Clone, Debug)]
pub struct Status {
    pub running: bool,
    pub message: String,
}

/// The shell command that (re)starts the service.
pub const START_COMMAND: &'static str = "launchctl kickstart -k system/com.lirays.scada";

/// The shell command that stops the service.
pub const STOP_COMMAND: &'static str = "launchctl bootout system/com.lirays.scada";

/// The status shown from the service query's outcome: running when the query succeeded;
/// otherwise not running, with the query's error output or the error that kept it from
/// running.
pub fn status_from(query: &Result<(bool, String), String>) -> (s: Status)
    ensures
        match query {
            Ok((true, _)) => s.running && s.message@ == "Running"@,
            Ok((false, err)) => !s.running && s.message@ == err@,
            Err(e) => !s.running && s.message@ == e@,
        },
{
    match query {
        Ok((true, _)) => Status { running: true, message: "Running".to_owned() },
        Ok((false, err)) => Status { running: false, message: err.clone() },
        Err(e) => Status { running: false, message: e.clone() },
    }
}

/// After running the start command: `None` when it succeeded (the status is queried
/// anew), otherwise not running with "Start failed" or the error that kept the command
/// from running.
pub fn start_service(ran: &Result<bool, String>) -> (s: Option<Status>)
    ensures
        match ran {
            Ok(true) => s is None,
            Ok(false) => s matches Some(st) && !st.running && st.message@ == "Start failed"@,
            Err(e) => s matches Some(st) && !st.running && st.message@ == e@,
        },
{
    match ran {
        Ok(true) => None,
        Ok(false) => Some(Status { running: false, message: "Start failed".to_owned() }),
        Err(e) => Some(Status { running: false, message: e.clone() }),
    }
}

/// After running the stop command: as `start_service`, with "Stop failed".
pub fn stop_service(ran: &Result<bool, String>) -> (s: Option<Status>)
    ensures
        match ran {
            Ok(true) => s is None,
            Ok(false) => s matches Some(st) && !st.running && st.message@ == "Stop failed"@,
            Err(e) => s matches Some(st) && !st.running && st.message@ == e@,
        },
{
    match ran {
        Ok(true) => None,
        Ok(false) => Some(Status { running: false, message: "Stop failed".to_owned() }),
        Err(e) => Some(Status { running: false, message: e.clone() }),
    }
}

/// `cmd` written inside an AppleScript string literal: each '\' doubled, each '"'
/// preceded by '\'.
pub open spec fn applescript_escaped(cmd: Seq<char>) -> Seq<char>
    decreases cmd.len(),
{
    if cmd.len() == 0 {
        Seq::empty()
    } else {
        let c = cmd.last();
        applescript_escaped(cmd.drop_last()) + if c == '\\' {
            seq!['\\', '\\']
        } else if c == '"' {
            seq!['\\', '"']
        } else {
            seq![c]
        }
    }
}

/// The AppleScript that runs shell command `cmd` with administrator privileges.
pub open spec fn privileged_script(cmd: Seq<char>) -> Seq<char> {
    "do shell script \""@ + applescript_escaped(cmd) + "\" with administrator privileges"@
}

/// The AppleScript that runs `cmd` with administrator privileges (see
/// `privileged_script`).
pub fn privileged_script_of(cmd: &str) -> (s: String)
    ensures
        s@ == privileged_script(cmd@),
{
    let v = chars_of(cmd);
    let mut s = "do shell script \"".to_owned();
    let ghost start = s@;
    let mut i: usize = 0;
    proof {
        assert(v@.take(0) =~= Seq::<char>::empty());
        assert(start + applescript_escaped(Seq::empty()) =~= start);
    }
    while i < v.len()
        invariant
            i <= v.len(),
            s@ == start + applescript_escaped(v@.take(i as int)),
        decreases v.len() - i,
    {
        let c = v[i];
        if c == '\\' {
            string_push(&mut s, '\\');
            string_push(&mut s, '\\');
        } else if c == '"' {
            string_push(&mut s, '\\');
            string_push(&mut s, '"');
        } else {
            string_push(&mut s, c);
        }
        proof {
            let t = v@.take(i + 1);
            assert(t.drop_last() =~= v@.take(i as int));
            assert(t.last() == c);
            assert(s@ =~= start + applescript_escaped(t));
        }
        i += 1;
    }
    proof {
        assert(v@.take(v@.len() as int) =~= v@);
    }
    let tail = chars_of("\" with administrator privileges");
    push_chars(&mut s, tail.as_slice());
    s
}

} // verus!
