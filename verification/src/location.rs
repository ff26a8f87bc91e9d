//! Where the client keeps its files, below the user's home directory.

use vstd::prelude::*;

use crate::text::string_views;

verus! {

broadcast use vstd::string::group_string_axioms;

/// A file or directory: a base directory and the names below it, in order.
pub struct Location<P> {
    pub base: P,
    pub parts: Vec<String>,
}

/// The user's home directory cannot be determined.
#[derive(Debug, PartialEq, Eq)]
pub enum HomeError {
    NoHome,
}

impl HomeError {
    /// The message shown to the user.
    pub fn message(&self) -> (r: &'static str)
        ensures
            r@ == "could not determine your home directory"@,
    {
        "could not determine your home directory"
    }
}

/// The home directory: `USERPROFILE` when it is set, else `HOME`.
pub open spec fn chosen_home<P>(userprofile: Option<P>, home: Option<P>) -> Option<P> {
    match userprofile {
        Some(p) => Some(p),
        None => home,
    }
}

/// The home directory, given the values of `USERPROFILE` and `HOME`.
pub fn home_dir<P>(userprofile: Option<P>, home: Option<P>) -> (r: Result<P, HomeError>)
    ensures
        match chosen_home(userprofile, home) {
            Some(p) => r == Ok::<P, HomeError>(p),
            None => r == Err::<P, HomeError>(HomeError::NoHome),
        },
{
    match userprofile {
        Some(p) => Ok(p),
        None => match home {
            Some(p) => Ok(p),
            None => Err(HomeError::NoHome),
        },
    }
}

fn below<P>(userprofile: Option<P>, home: Option<P>, names: &[&str]) -> (r: Result<
    Location<P>,
    HomeError,
>)
    ensures
        match chosen_home(userprofile, home) {
            Some(p) => r matches Ok(loc) && loc.base == p && string_views(loc.parts@)
                == names@.map_values(|n: &str| n@),
            None => r == Err::<Location<P>, HomeError>(HomeError::NoHome),
        },
{
    let base = home_dir(userprofile, home)?;
    let mut parts: Vec<String> = Vec::new();
    let mut i: usize = 0;
    while i < names.len()
        invariant
            i <= names@.len(),
            string_views(parts@) == names@.map_values(|n: &str| n@).take(i as int),
        decreases names@.len() - i,
    {
        let ghost before = parts@;
        let name: &str = names[i];
        let owned: String = name.to_owned();
        assert(owned@ == names@[i as int]@);
        parts.push(owned);
        assert(string_views(parts@) =~= string_views(before).push(owned@));
        assert(names@.map_values(|n: &str| n@).take(i + 1) =~= names@.map_values(|n: &str| n@).take(
            i as int,
        ).push(names@[i as int]@));
        i += 1;
    }
    assert(names@.map_values(|n: &str| n@).take(names@.len() as int) =~= names@.map_values(
        |n: &str| n@,
    ));
    Ok(Location { base, parts })
}

/// The client's data directory, `~/.ghostnet-cli`.
pub fn data_dir<P>(userprofile: Option<P>, home: Option<P>) -> (r: Result<Location<P>, HomeError>)
    ensures
        match chosen_home(userprofile, home) {
            Some(p) => r matches Ok(loc) && loc.base == p && string_views(loc.parts@) == seq![
                ".ghostnet-cli"@,
            ],
            None => r == Err::<Location<P>, HomeError>(HomeError::NoHome),
        },
{
    let names = [".ghostnet-cli"];
    let r = below(userprofile, home, &names);
    assert(names@.map_values(|n: &str| n@) =~= seq![".ghostnet-cli"@]);
    r
}

/// The configuration file, `~/.ghostnet-cli/config.json`.
pub fn path<P>(userprofile: Option<P>, home: Option<P>) -> (r: Result<Location<P>, HomeError>)
    ensures
        match chosen_home(userprofile, home) {
            Some(p) => r matches Ok(loc) && loc.base == p && string_views(loc.parts@) == seq![
                ".ghostnet-cli"@,
                "config.json"@,
            ],
            None => r == Err::<Location<P>, HomeError>(HomeError::NoHome),
        },
{
    let names = [".ghostnet-cli", "config.json"];
    let r = below(userprofile, home, &names);
    assert(names@.map_values(|n: &str| n@) =~= seq![".ghostnet-cli"@, "config.json"@]);
    r
}

/// The message history file, `~/.ghostnet-cli/history.ndjson`.
pub fn history_path<P>(userprofile: Option<P>, home: Option<P>) -> (r: Result<
    Location<P>,
    HomeError,
>)
    ensures
        match chosen_home(userprofile, home) {
            Some(p) => r matches Ok(loc) && loc.base == p && string_views(loc.parts@) == seq![
                ".ghostnet-cli"@,
                "history.ndjson"@,
            ],
            None => r == Err::<Location<P>, HomeError>(HomeError::NoHome),
        },
{
    let names = [".ghostnet-cli", "history.ndjson"];
    let r = below(userprofile, home, &names);
    assert(names@.map_values(|n: &str| n@) =~= seq![".ghostnet-cli"@, "history.ndjson"@]);
    r
}

/// Where the bridge and its `node_modules` live, `~/.ghostnet-cli/bridge`.
pub fn bridge_dir<P>(userprofile: Option<P>, home: Option<P>) -> (r: Result<
    Location<P>,
    HomeError,
>)
    ensures
        match chosen_home(userprofile, home) {
            Some(p) => r matches Ok(loc) && loc.base == p && string_views(loc.parts@) == seq![
                ".ghostnet-cli"@,
                "bridge"@,
            ],
            None => r == Err::<Location<P>, HomeError>(HomeError::NoHome),
        },
{
    let names = [".ghostnet-cli", "bridge"];
    let r = below(userprofile, home, &names);
    assert(names@.map_values(|n: &str| n@) =~= seq![".ghostnet-cli"@, "bridge"@]);
    r
}

/// The bridge script, `~/.ghostnet-cli/bridge/ghostnet-bridge.mjs`.
pub fn bridge_script<P>(userprofile: Option<P>, home: Option<P>) -> (r: Result<
    Location<P>,
    HomeError,
>)
    ensures
        match chosen_home(userprofile, home) {
            Some(p) => r matches Ok(loc) && loc.base == p && string_views(loc.parts@) == seq![
                ".ghostnet-cli"@,
                "bridge"@,
                "ghostnet-bridge.mjs"@,
            ],
            None => r == Err::<Location<P>, HomeError>(HomeError::NoHome),
        },
{
    let names = [".ghostnet-cli", "bridge", "ghostnet-bridge.mjs"];
    let r = below(userprofile, home, &names);
    assert(names@.map_values(|n: &str| n@) =~= seq![
        ".ghostnet-cli"@,
        "bridge"@,
        "ghostnet-bridge.mjs"@,
    ]);
    r
}

/// The installed SDK package, whose presence means the bridge is installed:
/// `~/.ghostnet-cli/bridge/node_modules/@n11x/ghostnet-sdk`.
pub fn sdk_package_dir<P>(userprofile: Option<P>, home: Option<P>) -> (r: Result<
    Location<P>,
    HomeError,
>)
    ensures
        match chosen_home(userprofile, home) {
            Some(p) => r matches Ok(loc) && loc.base == p && string_views(loc.parts@) == seq![
                ".ghostnet-cli"@,
                "bridge"@,
                "node_modules"@,
                "@n11x"@,
                "ghostnet-sdk"@,
            ],
            None => r == Err::<Location<P>, HomeError>(HomeError::NoHome),
        },
{
    let names = [".ghostnet-cli", "bridge", "node_modules", "@n11x", "ghostnet-sdk"];
    let r = below(userprofile, home, &names);
    assert(names@.map_values(|n: &str| n@) =~= seq![
        ".ghostnet-cli"@,
        "bridge"@,
        "node_modules"@,
        "@n11x"@,
        "ghostnet-sdk"@,
    ]);
    r
}

} // verus!
