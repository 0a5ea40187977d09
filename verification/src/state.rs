//! The client-side session state: the theme, the signed-in account, and
//! the flags the interface reacts to, with the update rules for each
//! action.  The reactive wrappers live in the surrounding program; the
//! state itself and its transitions are plain data here.

use vstd::prelude::*;


verus! {

/// The color theme the interface renders in.
#[derive(Debug, Clone, Copy, PartialEq, Eq, Structural, Default)]
pub enum Theme {
    #[default]
    Auto,
    Light,
    Dark,
}

impl Theme {
    /// The theme's name: `auto`, `light` or `dark`.
    pub fn to_string(&self) -> (r: String)
        ensures
            *self matches Theme::Auto ==> r@ == "auto"@,
            *self matches Theme::Light ==> r@ == "light"@,
            *self matches Theme::Dark ==> r@ == "dark"@,
    {
        match self {
            Theme::Light => String::from_str("light"),
            Theme::Dark => String::from_str("dark"),
            Theme::Auto => String::from_str("auto"),
        }
    }
}

/// The account the interface believes is signed in.
#[derive(Debug)]
pub struct UserProfile {
    pub id: u64,
    pub name: String,
}

/// The global state of one browsing session.
#[derive(Debug)]
pub struct GlobalState {
    pub theme: Theme,
    pub account: UserProfile,
    pub is_auth: bool,
    pub is_loaded: bool,
}

/// One update the interface may apply to the global state.
#[derive(Debug)]
pub enum GlobalStateAction {
    SetTheme(Theme),
    SetIsAuth(bool),
    SetIsLoaded(bool),
}

impl GlobalState {
    /// The state a fresh session starts in: light theme, nobody signed
    /// in, nothing loaded.
    pub fn new() -> (s: GlobalState)
        ensures
            s.theme == Theme::Light,
            s.account.id == 0,
            s.account.name@ == "Alessandro"@,
            !s.is_auth,
            !s.is_loaded,
    {
        GlobalState {
            theme: Theme::Light,
            account: UserProfile { id: 0, name: String::from_str("Alessandro") },
            is_auth: false,
            is_loaded: false,
        }
    }

    /// Applies one action; everything the action does not name stays as
    /// it was.
    pub fn update(&mut self, action: GlobalStateAction)
        ensures
            match action {
                GlobalStateAction::SetTheme(t) => final(self).theme == t && final(self).is_auth
                    == old(self).is_auth && final(self).is_loaded == old(self).is_loaded,
                GlobalStateAction::SetIsAuth(b) => final(self).is_auth == b && final(self).theme
                    == old(self).theme && final(self).is_loaded == old(self).is_loaded,
                GlobalStateAction::SetIsLoaded(b) => final(self).is_loaded == b
                    && final(self).theme == old(self).theme && final(self).is_auth == old(
                    self,
                ).is_auth,
            },
            final(self).account == old(self).account,
    {
        match action {
            GlobalStateAction::SetTheme(t) => {
                self.theme = t;
            },
            GlobalStateAction::SetIsAuth(b) => {
                self.is_auth = b;
            },
            GlobalStateAction::SetIsLoaded(b) => {
                self.is_loaded = b;
            },
        }
    }
}

} // verus!
