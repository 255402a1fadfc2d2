//! Connection profiles. Reading and writing the configuration file is I/O
//! and lives outside the library; the types and the path arithmetic live
//! here.

use vstd::prelude::*;

use crate::db::DriverConfig;

verus! {

/// Configuration options for a single connection profile.
#[derive(Debug, Clone, PartialEq)]
pub struct Profile {
    pub driver: DriverConfig,
    pub name: String,
}

impl Profile {
    /// The profile's name.
    pub open spec fn spec_name(&self) -> Seq<char> {
        self.name@
    }

    /// Creates a profile with the given driver and name.
    pub fn new(driver: DriverConfig, name: String) -> (r: Profile)
        ensures
            r.driver == driver,
            r.spec_name() == name@,
    {
        Profile { driver, name }
    }

    /// The profile's name.
    pub fn name(&self) -> (r: &str)
        ensures
            r@ == self.spec_name(),
    {
        self.name.as_str()
    }

    /// The path of the schema file for this profile, under the given
    /// configuration directory: `<dir>/<name>.schema.json`.
    pub fn schema_path(&self, config_dir: &str) -> (r: String)
        ensures
            r@ == config_dir@ + seq!['/'] + self.spec_name() + ".schema.json"@,
    {
        proof {
            reveal_strlit("/");
        }
        let mut r = String::from_str(config_dir);
        r.append("/");
        r.append(self.name.as_str());
        r.append(".schema.json");
        proof {
            assert(r@ =~= config_dir@ + seq!['/'] + self.spec_name() + ".schema.json"@);
        }
        r
    }
}

/// Configuration options for the whole application: the named connection
/// profiles.
#[derive(Debug, Clone, PartialEq)]
pub struct Config {
    pub profiles: Vec<Profile>,
}

impl Config {
    /// Creates an empty configuration.
    pub fn new() -> (r: Config)
        ensures
            r.profiles@ == Seq::<Profile>::empty(),
    {
        Config { profiles: Vec::new() }
    }

    /// Looks a profile up by name: the first profile carrying it, or `None`
    /// when no profile does.
    pub fn get_profile(&self, name: &str) -> (r: Option<&Profile>)
        ensures
            match r {
                Some(p) => exists|i: int|
                    {
                        &&& 0 <= i < self.profiles@.len()
                        &&& (#[trigger] self.profiles@[i]).spec_name() == name@
                        &&& *p == self.profiles@[i]
                        &&& forall|j: int| 0 <= j < i ==> (#[trigger] self.profiles@[j]).spec_name() != name@
                    },
                None => forall|i: int|
                    0 <= i < self.profiles@.len() ==> (#[trigger] self.profiles@[i]).spec_name()
                        != name@,
            },
    {
        let mut i: usize = 0;
        while i < self.profiles.len()
            invariant
                i <= self.profiles@.len(),
                forall|j: int|
                    0 <= j < i ==> (#[trigger] self.profiles@[j]).spec_name() != name@,
            decreases self.profiles@.len() - i,
        {
            if crate::alg::str_eq(self.profiles[i].name(), name) {
                return Some(&self.profiles[i]);
            }
            i = i + 1;
        }
        None
    }
}

impl Default for Config {
    fn default() -> (r: Self)
        ensures
            r.profiles@ == Seq::<Profile>::empty(),
    {
        Config::new()
    }
}

} // verus!
