//! The five states a job record can be in.

use vstd::prelude::*;
use crate::record::chars_of;

verus! {

/// Status of a job, as encoded in the last component of its record's name.
#[derive(Clone, Copy, Debug, PartialEq, Eq, Structural)]
pub enum Status {
    Waiting,
    Running,
    Finished,
    Failed,
    Crashed,
}

/// A status is terminal when no further transition leaves it.
pub open spec fn is_terminal(s: Status) -> bool {
    match s {
        Status::Waiting | Status::Running => false,
        Status::Finished | Status::Failed | Status::Crashed => true,
    }
}

/// The text that stands for a status in a record name.
pub open spec fn status_text(s: Status) -> Seq<char> {
    match s {
        Status::Waiting => seq!['w', 'a', 'i', 't', 'i', 'n', 'g'],
        Status::Running => seq!['r', 'u', 'n', 'n', 'i', 'n', 'g'],
        Status::Finished => seq!['f', 'i', 'n', 'i', 's', 'h', 'e', 'd'],
        Status::Failed => seq!['f', 'a', 'i', 'l', 'e', 'd'],
        Status::Crashed => seq!['c', 'r', 'a', 's', 'h', 'e', 'd'],
    }
}

/// The status whose text is `t`, if any.
pub open spec fn status_of_text(t: Seq<char>) -> Option<Status> {
    if t == status_text(Status::Waiting) {
        Some(Status::Waiting)
    } else if t == status_text(Status::Running) {
        Some(Status::Running)
    } else if t == status_text(Status::Finished) {
        Some(Status::Finished)
    } else if t == status_text(Status::Failed) {
        Some(Status::Failed)
    } else if t == status_text(Status::Crashed) {
        Some(Status::Crashed)
    } else {
        None
    }
}

/// Every status is named by a distinct text, and reading that text back gives the status.
pub proof fn lemma_status_text_round_trip(s: Status)
    ensures
        status_of_text(status_text(s)) == Some(s),
{
    let t = status_text(s);
    assert(t.len() >= 6);
    if s != Status::Waiting {
        assert(t != status_text(Status::Waiting)) by {
            if t.len() == 7 {
                assert(t[0] != 'w');
            }
        }
    }
    if s != Status::Running && s != Status::Waiting {
        assert(t != status_text(Status::Running)) by {
            if t.len() == 7 {
                assert(t[0] != 'r');
            }
        }
    }
    if s == Status::Failed || s == Status::Crashed {
        assert(t != status_text(Status::Finished)) by {
            assert(t.len() != 8);
        }
    }
    if s == Status::Crashed {
        assert(t != status_text(Status::Failed)) by {
            assert(t.len() != 6);
        }
    }
}

impl Status {
    /// Whether this status is terminal (finished, failed or crashed).
    pub fn is_finished(self) -> (r: bool)
        ensures
            r == is_terminal(self),
    {
        match self {
            Status::Waiting | Status::Running => false,
            Status::Finished | Status::Failed | Status::Crashed => true,
        }
    }

    /// The text of this status, as it appears in record names and in the monitor.
    pub fn as_str(self) -> (r: &'static str)
        ensures
            r@ == status_text(self),
    {
        match self {
            Status::Waiting => {
                proof {
                    reveal_strlit("waiting");
                }
                "waiting"
            },
            Status::Running => {
                proof {
                    reveal_strlit("running");
                }
                "running"
            },
            Status::Finished => {
                proof {
                    reveal_strlit("finished");
                }
                "finished"
            },
            Status::Failed => {
                proof {
                    reveal_strlit("failed");
                }
                "failed"
            },
            Status::Crashed => {
                proof {
                    reveal_strlit("crashed");
                }
                "crashed"
            },
        }
    }

    /// The text of this status as an owned string.
    pub fn to_string(self) -> (r: String)
        ensures
            r@ == status_text(self),
    {
        self.as_str().to_owned()
    }

    /// Reads a status from its text; any other text is refused.
    pub fn parse(s: &str) -> (r: Option<Status>)
        ensures
            r == status_of_text(s@),
    {
        let t = chars_of(s);
        Status::from_chars(&t)
    }

    /// Reads a status from its characters; any other text is refused.
    pub fn from_chars(t: &Vec<char>) -> (r: Option<Status>)
        ensures
            r == status_of_text(t@),
    {
        let n = t.len();
        if n == 7 && t[0] == 'w' && t[1] == 'a' && t[2] == 'i' && t[3] == 't' && t[4] == 'i'
            && t[5] == 'n' && t[6] == 'g' {
            assert(t@ =~= status_text(Status::Waiting));
            Some(Status::Waiting)
        } else if n == 7 && t[0] == 'r' && t[1] == 'u' && t[2] == 'n' && t[3] == 'n' && t[4]
            == 'i' && t[5] == 'n' && t[6] == 'g' {
            assert(t@ =~= status_text(Status::Running));
            Some(Status::Running)
        } else if n == 8 && t[0] == 'f' && t[1] == 'i' && t[2] == 'n' && t[3] == 'i' && t[4]
            == 's' && t[5] == 'h' && t[6] == 'e' && t[7] == 'd' {
            assert(t@ =~= status_text(Status::Finished));
            Some(Status::Finished)
        } else if n == 6 && t[0] == 'f' && t[1] == 'a' && t[2] == 'i' && t[3] == 'l' && t[4]
            == 'e' && t[5] == 'd' {
            assert(t@ =~= status_text(Status::Failed));
            Some(Status::Failed)
        } else if n == 7 && t[0] == 'c' && t[1] == 'r' && t[2] == 'a' && t[3] == 's' && t[4]
            == 'h' && t[5] == 'e' && t[6] == 'd' {
            assert(t@ =~= status_text(Status::Crashed));
            Some(Status::Crashed)
        } else {
            proof {
                if t@ == status_text(Status::Waiting) {
                    assert(t@[0] == 'w' && t@[6] == 'g');
                }
                if t@ == status_text(Status::Running) {
                    assert(t@[0] == 'r');
                }
                if t@ == status_text(Status::Finished) {
                    assert(t@[0] == 'f');
                }
                if t@ == status_text(Status::Failed) {
                    assert(t@[0] == 'f');
                }
                if t@ == status_text(Status::Crashed) {
                    assert(t@[0] == 'c');
                }
            }
            None
        }
    }
}

} // verus!
