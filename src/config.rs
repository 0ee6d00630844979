//! The user's settings and the options of the two commands.
use vstd::prelude::*;

use crate::codes::ResultCode;
use crate::game::Player;
use crate::{AppResult, Failure};

verus! {

/// The stored settings: the player's display name, once set.
pub struct AppConfig {
    pub user: Option<String>,
}

impl AppConfig {
    /// Sets the display name; an empty name is refused and nothing changes.
    pub fn set_user(&mut self, name: String) -> (r: AppResult<()>)
        ensures
            r.is_ok() <==> name@.len() > 0,
            r.is_ok() ==> final(self).user == Some(name),
            r matches Err(e) ==> e.code == ResultCode::InvalidArgs && final(self).user == old(
                self,
            ).user,
    {
        if name.as_str().is_empty() {
            return Err(
                Failure {
                    message: "Name can not be empty".to_owned(),
                    trace: String::new(),
                    code: ResultCode::InvalidArgs,
                },
            );
        }
        self.user = Some(name);
        Ok(())
    }
}

impl Default for AppConfig {
    fn default() -> (r: Self)
        ensures
            r.user.is_none(),
    {
        AppConfig { user: None }
    }
}

/// Options of the command that sets the display name.
pub struct ArgsInit {
    pub name: Option<String>,
}

impl ArgsInit {
    /// The name given on the command line, when one was given and is not
    /// empty; otherwise the user is asked for one.
    pub fn given_name(&self) -> (r: Option<String>)
        ensures
            match self.name {
                Some(n) => if n@.len() > 0 {
                    r == Some(n)
                } else {
                    r.is_none()
                },
                None => r.is_none(),
            },
    {
        match &self.name {
            Some(n) => {
                if n.as_str().is_empty() {
                    None
                } else {
                    Some(n.clone())
                }
            },
            None => None,
        }
    }
}

/// Options of the command that starts a game.
pub struct ArgsStart {
    /// The side the person plays against the computer.
    pub player: Option<Player>,
    /// Two people play each other.
    pub multiplayer: bool,
    /// 1 easy, 2 normal, 3 hard.
    pub difficulty: u8,
}

} // verus!
