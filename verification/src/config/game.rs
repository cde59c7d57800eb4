//! The per-game configuration record that the manager writes into a patched
//! game's folder.
use vstd::prelude::*;

verus! {

/// One named set of mods: a mod identifier mapped to the installed version.
#[derive(Debug, PartialEq)]
pub struct ModProfile {
    pub name: String,
    pub mods: std::collections::HashMap<String, String>,
}

/// The state the manager keeps inside a patched game's folder.
#[derive(Debug, PartialEq)]
pub struct GameConfig {
    pub patch_ver: String,
    /// If this is `None` or out of range, the loader treats the game as unpatched.
    pub selected_profile: Option<usize>,
    pub profiles: Vec<ModProfile>,
}

/// Mathematical shape of a [`ModProfile`].
pub struct ProfileView {
    pub name: Seq<char>,
    pub mods: Map<Seq<char>, Seq<char>>,
}

/// Mathematical shape of a [`GameConfig`].
pub struct ConfigView {
    pub patch_ver: Seq<char>,
    pub selected_profile: Option<usize>,
    pub profiles: Seq<ProfileView>,
}

impl View for ModProfile {
    type V = ProfileView;

    open spec fn view(&self) -> ProfileView {
        ProfileView { name: self.name@, mods: self.mods.deep_view() }
    }
}

impl View for GameConfig {
    type V = ConfigView;

    open spec fn view(&self) -> ConfigView {
        ConfigView {
            patch_ver: self.patch_ver@,
            selected_profile: self.selected_profile,
            profiles: Seq::new(self.profiles@.len(), |i: int| self.profiles@[i]@),
        }
    }
}

} // verus!
