//! The sample catalog entries the manager ships with.
use crate::game::GameMetadata;
use crate::game_discovery::GameDiscoveryRequirement;
use vstd::prelude::*;
use vstd::string::StringExecFns;

verus! {

/// The signature of Pavlov: both the packaged executable and the
/// top-level launcher must be present.
pub fn get_pavlov_metadata() -> (m: GameMetadata)
    ensures
        m.name@ == "Pavlov"@,
        m.internal_name@ == "pavlov"@,
        m.contentpath_relative@ == "Pavlov"@,
        m.modloader_manifest@ == "todo"@,
        m.discovery is And,
        m.discovery->And_0@.len() == 2,
        m.discovery->And_0@[0] is FileExists,
        m.discovery->And_0@[0]->FileExists_0@ == "Pavlov\\Binaries\\Win64\\Pavlov-Win64-Shipping.exe"@,
        m.discovery->And_0@[1] is FileExists,
        m.discovery->And_0@[1]->FileExists_0@ == "Pavlov.exe"@,
{
    let mut reqs: Vec<GameDiscoveryRequirement> = Vec::new();
    reqs.push(
        GameDiscoveryRequirement::FileExists(
            String::from_str("Pavlov\\Binaries\\Win64\\Pavlov-Win64-Shipping.exe"),
        ),
    );
    reqs.push(GameDiscoveryRequirement::FileExists(String::from_str("Pavlov.exe")));
    GameMetadata {
        contentpath_relative: String::from_str("Pavlov"),
        name: String::from_str("Pavlov"),
        internal_name: String::from_str("pavlov"),
        modloader_manifest: String::from_str("todo"),
        discovery: GameDiscoveryRequirement::And(reqs),
        icon: (),
    }
}

/// The signature of It Takes Two: its packaged executable must be present.
pub fn get_it_takes_two_metadata() -> (m: GameMetadata)
    ensures
        m.name@ == "It Takes Two"@,
        m.internal_name@ == "it_takes_two"@,
        m.contentpath_relative@ == "ItTakesTwo"@,
        m.modloader_manifest@ == "todo"@,
        m.discovery is And,
        m.discovery->And_0@.len() == 1,
        m.discovery->And_0@[0] is FileExists,
        m.discovery->And_0@[0]->FileExists_0@ == "Nuts\\Binaries\\Win64\\ItTakesTwo.exe"@,
{
    let mut reqs: Vec<GameDiscoveryRequirement> = Vec::new();
    reqs.push(
        GameDiscoveryRequirement::FileExists(
            String::from_str("Nuts\\Binaries\\Win64\\ItTakesTwo.exe"),
        ),
    );
    GameMetadata {
        contentpath_relative: String::from_str("ItTakesTwo"),
        name: String::from_str("It Takes Two"),
        internal_name: String::from_str("it_takes_two"),
        modloader_manifest: String::from_str("todo"),
        discovery: GameDiscoveryRequirement::And(reqs),
        icon: (),
    }
}

} // verus!
