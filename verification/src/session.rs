//! The graphical session: explicit state, `LoggedOut -> Active -> Locked ->
//! Active -> LoggedOut`, with illegal transitions rejected rather than
//! coerced. Seats are tracked regardless of login state.

use vstd::prelude::*;
use crate::common::{ObjectId, Error, is_security_error, security_error};
use crate::idmap::{position_in, contains_id, find_id, lemma_remove_no_dup};

verus! {

/// Where a session stands.
#[derive(Clone, Copy, Debug, PartialEq, Eq, Structural)]
pub enum SessionState {
    LoggedOut,
    Active,
    Locked,
}

/// One graphical session.
pub struct GraphicalSession {
    state: SessionState,
    user: Option<String>,
    /// Seats: independent (output, input-device-group) pairs.
    seats: Vec<ObjectId>,
}

impl GraphicalSession {
    /// The session's state.
    pub closed spec fn state_spec(&self) -> SessionState {
        self.state
    }

    /// The logged-in user's name, if any.
    pub closed spec fn user_spec(&self) -> Option<Seq<char>> {
        match self.user {
            Some(u) => Some(u@),
            None => None,
        }
    }

    /// The seats, in the order they were added.
    pub closed spec fn seats_spec(&self) -> Seq<ObjectId> {
        self.seats@
    }

    /// A user is associated with the session exactly when it is not logged
    /// out, and no seat is listed twice.
    pub open spec fn wf(&self) -> bool {
        &&& (self.state_spec() == SessionState::LoggedOut <==> self.user_spec() is None)
        &&& self.seats_spec().no_duplicates()
    }

    /// A logged-out session with no seat.
    pub fn new() -> (s: GraphicalSession)
        ensures
            s.wf(),
            s.state_spec() == SessionState::LoggedOut,
            s.user_spec() is None,
            s.seats_spec() == Seq::<ObjectId>::empty(),
    {
        GraphicalSession { state: SessionState::LoggedOut, user: None, seats: Vec::new() }
    }

    /// The session's state.
    pub fn state(&self) -> (s: SessionState)
        ensures
            s == self.state_spec(),
    {
        self.state
    }

    /// The logged-in user's name, if any.
    pub fn user(&self) -> (u: Option<&str>)
        ensures
            u is None <==> self.user_spec() is None,
            u matches Some(name) ==> self.user_spec() == Some(name@),
    {
        match &self.user {
            Some(name) => Some(name.as_str()),
            None => None,
        }
    }

    /// Logs `user` in; only a logged-out session can log in.
    pub fn login(&mut self, user: &str) -> (r: Result<(), Error>)
        requires
            old(self).wf(),
        ensures
            final(self).wf(),
            final(self).seats_spec() == old(self).seats_spec(),
            r is Ok <==> old(self).state_spec() == SessionState::LoggedOut,
            r is Ok ==> final(self).state_spec() == SessionState::Active && final(self).user_spec() == Some(user@),
            r matches Err(e) ==> is_security_error(e, "cannot log in: session is already active"@)
                && final(self).state_spec() == old(self).state_spec() && final(self).user_spec() == old(self).user_spec(),
    {
        if self.state != SessionState::LoggedOut {
            return Err(security_error("cannot log in: session is already active"));
        }
        self.user = Some(user.to_string());
        self.state = SessionState::Active;
        Ok(())
    }

    /// Logs the user out; a logged-out session cannot log out.
    pub fn logout(&mut self) -> (r: Result<(), Error>)
        requires
            old(self).wf(),
        ensures
            final(self).wf(),
            final(self).seats_spec() == old(self).seats_spec(),
            r is Ok <==> old(self).state_spec() != SessionState::LoggedOut,
            r is Ok ==> final(self).state_spec() == SessionState::LoggedOut && final(self).user_spec() is None,
            r matches Err(e) ==> is_security_error(e, "cannot log out: no active session"@)
                && final(self).state_spec() == old(self).state_spec() && final(self).user_spec() == old(self).user_spec(),
    {
        if self.state == SessionState::LoggedOut {
            return Err(security_error("cannot log out: no active session"));
        }
        self.user = None;
        self.state = SessionState::LoggedOut;
        Ok(())
    }

    /// Locks an active session; the user stays associated with it.
    pub fn lock(&mut self) -> (r: Result<(), Error>)
        requires
            old(self).wf(),
        ensures
            final(self).wf(),
            final(self).seats_spec() == old(self).seats_spec(),
            final(self).user_spec() == old(self).user_spec(),
            r is Ok <==> old(self).state_spec() == SessionState::Active,
            r is Ok ==> final(self).state_spec() == SessionState::Locked,
            r matches Err(e) ==> is_security_error(e, "cannot lock: session is not active"@)
                && final(self).state_spec() == old(self).state_spec(),
    {
        if self.state != SessionState::Active {
            return Err(security_error("cannot lock: session is not active"));
        }
        self.state = SessionState::Locked;
        Ok(())
    }

    /// Records that a locked session was unlocked. This is not an
    /// authentication check: the authentication happens upstream.
    pub fn unlock(&mut self) -> (r: Result<(), Error>)
        requires
            old(self).wf(),
        ensures
            final(self).wf(),
            final(self).seats_spec() == old(self).seats_spec(),
            final(self).user_spec() == old(self).user_spec(),
            r is Ok <==> old(self).state_spec() == SessionState::Locked,
            r is Ok ==> final(self).state_spec() == SessionState::Active,
            r matches Err(e) ==> is_security_error(e, "cannot unlock: session is not locked"@)
                && final(self).state_spec() == old(self).state_spec(),
    {
        if self.state != SessionState::Locked {
            return Err(security_error("cannot unlock: session is not locked"));
        }
        self.state = SessionState::Active;
        Ok(())
    }

    /// Restarts the session without logging out: valid from `Active` or
    /// `Locked`, and always lands in `Active`.
    pub fn restart(&mut self) -> (r: Result<(), Error>)
        requires
            old(self).wf(),
        ensures
            final(self).wf(),
            final(self).seats_spec() == old(self).seats_spec(),
            final(self).user_spec() == old(self).user_spec(),
            r is Ok <==> old(self).state_spec() != SessionState::LoggedOut,
            r is Ok ==> final(self).state_spec() == SessionState::Active,
            r matches Err(e) ==> is_security_error(e, "cannot restart: no active session"@)
                && final(self).state_spec() == old(self).state_spec(),
    {
        if self.state == SessionState::LoggedOut {
            return Err(security_error("cannot restart: no active session"));
        }
        self.state = SessionState::Active;
        Ok(())
    }

    /// Adds seat `seat_id`, once.
    pub fn add_seat(&mut self, seat_id: ObjectId)
        requires
            old(self).wf(),
        ensures
            final(self).wf(),
            final(self).state_spec() == old(self).state_spec(),
            final(self).user_spec() == old(self).user_spec(),
            final(self).seats_spec() == if old(self).seats_spec().contains(seat_id) {
                old(self).seats_spec()
            } else {
                old(self).seats_spec().push(seat_id)
            },
    {
        if !contains_id(&self.seats, seat_id) {
            let ghost before = self.seats@;
            self.seats.push(seat_id);
            proof {
                assert forall|a: int, b: int| 0 <= a < self.seats@.len() && 0 <= b < self.seats@.len() && a != b
                    implies self.seats@[a] != self.seats@[b] by {
                    if a < before.len() && b < before.len() {
                    } else if a < before.len() {
                        assert(before.contains(self.seats@[a]));
                    } else {
                        assert(before.contains(self.seats@[b]));
                    }
                }
            }
        }
    }

    /// Removes seat `seat_id`.
    pub fn remove_seat(&mut self, seat_id: &ObjectId)
        requires
            old(self).wf(),
        ensures
            final(self).wf(),
            final(self).state_spec() == old(self).state_spec(),
            final(self).user_spec() == old(self).user_spec(),
            final(self).seats_spec() == if old(self).seats_spec().contains(*seat_id) {
                old(self).seats_spec().remove(position_in(old(self).seats_spec(), *seat_id))
            } else {
                old(self).seats_spec()
            },
            !final(self).seats_spec().contains(*seat_id),
    {
        match find_id(&self.seats, *seat_id) {
            Some(p) => {
                let ghost before = self.seats@;
                self.seats.remove(p);
                proof {
                    lemma_remove_no_dup(before, p as int);
                }
            },
            None => {},
        }
    }

    /// The seats, in the order they were added.
    pub fn seats(&self) -> (s: &[ObjectId])
        ensures
            s@ == self.seats_spec(),
    {
        self.seats.as_slice()
    }
}

impl Default for GraphicalSession {
    fn default() -> (s: GraphicalSession)
        ensures
            s.wf(),
            s.state_spec() == SessionState::LoggedOut,
            s.user_spec() is None,
            s.seats_spec() == Seq::<ObjectId>::empty(),
    {
        GraphicalSession::new()
    }
}

} // verus!
