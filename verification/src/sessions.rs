//! How a work session is rated, and the card that shows it.
use vstd::prelude::*;
use crate::records::{copy_text_option, WorkSession};
use crate::text::{decimal, owned, push_decimal};

verus! {

broadcast use vstd::string::group_string_axioms;

/// How a work session went.
#[derive(Clone, Copy, PartialEq, Eq, Structural, Debug)]
pub enum SessionStatus {
    Brief,
    Focused,
    Steady,
    Fragmented,
}

/// Under ten active minutes a session is brief; from 25 minutes with fewer
/// than 6 switches per active hour it is focused; from 15 minutes with fewer
/// than 12 switches per active hour it is steady; otherwise fragmented.
pub open spec fn status_of(active_seconds: int, switch_count: int) -> SessionStatus {
    if active_seconds < 600 {
        SessionStatus::Brief
    } else if active_seconds >= 1500 && switch_count * 600 < active_seconds {
        SessionStatus::Focused
    } else if active_seconds >= 900 && switch_count * 300 < active_seconds {
        SessionStatus::Steady
    } else {
        SessionStatus::Fragmented
    }
}

/// The status of a session with `active_seconds` of activity and
/// `switch_count` application switches. (Switches per active hour below 6
/// is `switch_count * 600 < active_seconds`, below 12 is
/// `switch_count * 300 < active_seconds`.)
pub fn session_status(active_seconds: u64, switch_count: u64) -> (r: SessionStatus)
    ensures
        r == status_of(active_seconds as int, switch_count as int),
        r == SessionStatus::Focused <==> (active_seconds >= 1500 && switch_count * 600 < active_seconds),
        r == SessionStatus::Brief <==> active_seconds < 600,
{
    proof {
        crate::laws::session_status_follows_switch_rate(active_seconds as int, switch_count as int, active_seconds as int);
    }
    let active = active_seconds as u128;
    let switches = switch_count as u128;
    if active_seconds < 600 {
        SessionStatus::Brief
    } else if active_seconds >= 1500 && switches * 600 < active {
        SessionStatus::Focused
    } else if active_seconds >= 900 && switches * 300 < active {
        SessionStatus::Steady
    } else {
        SessionStatus::Fragmented
    }
}

impl SessionStatus {
    pub open spec fn label(self) -> Seq<char> {
        match self {
            SessionStatus::Brief => "brief"@,
            SessionStatus::Focused => "focused"@,
            SessionStatus::Steady => "steady"@,
            SessionStatus::Fragmented => "fragmented"@,
        }
    }

    /// The name under which the status is shown.
    pub fn name(&self) -> (r: &'static str)
        ensures
            r@ == self.label(),
    {
        match self {
            SessionStatus::Brief => "brief",
            SessionStatus::Focused => "focused",
            SessionStatus::Steady => "steady",
            SessionStatus::Fragmented => "fragmented",
        }
    }
}

/// A session as the review list shows it. The switch rate per active hour
/// is `switch_count / (active_seconds / 3600)`, 0 without activity.
pub struct SessionCardView {
    pub id: String,
    pub started_at: String,
    pub ended_at: Option<String>,
    pub is_live: bool,
    pub status: SessionStatus,
    pub active_seconds: u64,
    pub app_count: u64,
    pub switch_count: u64,
    pub end_reason: Option<String>,
}

/// The content of a session card.
pub struct CardContent {
    pub id: Seq<char>,
    pub started_at: Seq<char>,
    pub ended_at: Option<Seq<char>>,
    pub is_live: bool,
    pub status: SessionStatus,
    pub active_seconds: u64,
    pub app_count: u64,
    pub switch_count: u64,
    pub end_reason: Option<Seq<char>>,
}

pub open spec fn text_option(value: Option<String>) -> Option<Seq<char>> {
    match value {
        Some(t) => Some(t@),
        None => None,
    }
}

impl View for SessionCardView {
    type V = CardContent;

    open spec fn view(&self) -> CardContent {
        CardContent {
            id: self.id@,
            started_at: self.started_at@,
            ended_at: text_option(self.ended_at),
            is_live: self.is_live,
            status: self.status,
            active_seconds: self.active_seconds,
            app_count: self.app_count,
            switch_count: self.switch_count,
            end_reason: text_option(self.end_reason),
        }
    }
}

impl SessionCardView {
    pub fn duplicate(&self) -> (r: Self)
        ensures
            r@ == self@,
    {
        SessionCardView {
            id: self.id.clone(),
            started_at: self.started_at.clone(),
            ended_at: copy_text_option(&self.ended_at),
            is_live: self.is_live,
            status: self.status,
            active_seconds: self.active_seconds,
            app_count: self.app_count,
            switch_count: self.switch_count,
            end_reason: copy_text_option(&self.end_reason),
        }
    }
}

/// The card of the completed session at position `index` of the session
/// list: its id is its start and its position, joined by `-`.
pub open spec fn completed_card(session: WorkSession, index: nat) -> CardContent {
    CardContent {
        id: session.started_at@ + "-"@ + decimal(index),
        started_at: session.started_at@,
        ended_at: text_option(session.ended_at),
        is_live: false,
        status: status_of(session.active_seconds as int, session.switch_count as int),
        active_seconds: session.active_seconds,
        app_count: session.app_count,
        switch_count: session.switch_count,
        end_reason: text_option(session.end_reason),
    }
}

/// The card of the completed session at position `index`.
pub fn session_card(session: &WorkSession, index: usize) -> (r: SessionCardView)
    ensures
        r@ == completed_card(*session, index as nat),
{
    let mut id = session.started_at.clone();
    proof {
        reveal_strlit("-");
    }
    id.append("-");
    push_decimal(&mut id, index);
    SessionCardView {
        id,
        started_at: session.started_at.clone(),
        ended_at: copy_text_option(&session.ended_at),
        is_live: false,
        status: session_status(session.active_seconds, session.switch_count),
        active_seconds: session.active_seconds,
        app_count: session.app_count,
        switch_count: session.switch_count,
        end_reason: copy_text_option(&session.end_reason),
    }
}

/// The card of the running session, started at `started_at`: its id is
/// `live-` followed by the start.
pub open spec fn running_card(
    started_at: Seq<char>,
    is_live: bool,
    active_seconds: u64,
    app_count: u64,
    switch_count: u64,
) -> CardContent {
    CardContent {
        id: "live-"@ + started_at,
        started_at: started_at,
        ended_at: None,
        is_live: is_live,
        status: status_of(active_seconds as int, switch_count as int),
        active_seconds: active_seconds,
        app_count: app_count,
        switch_count: switch_count,
        end_reason: None,
    }
}

/// The card of the running session.
pub fn live_session_card(
    started_at: &String,
    is_live: bool,
    active_seconds: u64,
    app_count: u64,
    switch_count: u64,
) -> (r: SessionCardView)
    ensures
        r@ == running_card(started_at@, is_live, active_seconds, app_count, switch_count),
{
    let mut id = owned("live-");
    id.append(started_at.as_str());
    SessionCardView {
        id,
        started_at: started_at.clone(),
        ended_at: None,
        is_live,
        status: session_status(active_seconds, switch_count),
        active_seconds,
        app_count,
        switch_count,
        end_reason: None,
    }
}

} // verus!
