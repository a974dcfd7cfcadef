//! The app resolution table: maps an application identifier to the command
//! that launches it, and records which applications are single-instance.
//! Loaded once per restore cycle from configuration and read-only
//! thereafter.

use vstd::prelude::*;
use crate::snapshot::clone_bytes;

verus! {

/// One configured mapping: an app id and the command that launches it.
pub struct AppMapping {
    pub app_id: Vec<u8>,
    pub command: Vec<Vec<u8>>,
}

/// The resolution table. Mappings are consulted first-match; a
/// well-formed table has one mapping per app id, so first-match equals
/// unique lookup.
pub struct AppResolutionTable {
    pub mappings: Vec<AppMapping>,
    pub single_instance: Vec<Vec<u8>>,
}

/// The model of a command: its words as byte strings.
pub open spec fn command_model(c: Seq<Vec<u8>>) -> Seq<Seq<u8>> {
    c.map_values(|w: Vec<u8>| w@)
}

/// First-match lookup among the mappings.
pub open spec fn lookup_command(ms: Seq<AppMapping>, app: Seq<u8>) -> Option<Seq<Seq<u8>>>
    decreases ms.len(),
{
    if ms.len() == 0 {
        None
    } else if ms[0].app_id@ == app {
        Some(command_model(ms[0].command@))
    } else {
        lookup_command(ms.drop_first(), app)
    }
}

impl AppResolutionTable {
    /// Each app id is mapped at most once.
    pub open spec fn wf(self) -> bool {
        forall|i: int, j: int|
            0 <= i < j < self.mappings@.len() ==> self.mappings@[i].app_id@
                != self.mappings@[j].app_id@
    }

    /// Whether `app` is marked single-instance.
    pub open spec fn is_single_spec(self, app: Seq<u8>) -> bool {
        exists|i: int| 0 <= i < self.single_instance@.len() && self.single_instance@[i]@ == app
    }

    /// What `resolve` returns: the configured command, or the app id itself
    /// as a one-word command when no mapping exists.
    pub open spec fn resolve_spec(self, app: Seq<u8>) -> Seq<Seq<u8>> {
        match lookup_command(self.mappings@, app) {
            Some(c) => c,
            None => seq![app],
        }
    }

    /// The empty table: no mappings, no single-instance apps.
    pub fn new() -> (t: AppResolutionTable)
        ensures
            t.mappings@.len() == 0,
            t.single_instance@.len() == 0,
            t.wf(),
    {
        AppResolutionTable { mappings: Vec::new(), single_instance: Vec::new() }
    }

    /// Whether `app` is marked single-instance.
    pub fn is_single_instance(&self, app: &Vec<u8>) -> (r: bool)
        ensures
            r == self.is_single_spec(app@),
    {
        let mut i: usize = 0;
        while i < self.single_instance.len()
            invariant
                i <= self.single_instance@.len(),
                forall|j: int| 0 <= j < i ==> self.single_instance@[j]@ != app@,
            decreases self.single_instance@.len() - i,
        {
            if bytes_eq(&self.single_instance[i], app) {
                return true;
            }
            i = i + 1;
        }
        false
    }

    /// The configured command for `app`, or `app` itself as a one-word
    /// command when no mapping exists (the identifier is assumed directly
    /// executable).
    pub fn resolve(&self, app: &Vec<u8>) -> (c: Vec<Vec<u8>>)
        ensures
            command_model(c@) == self.resolve_spec(app@),
    {
        let mut i: usize = 0;
        proof {
            assert(self.mappings@.skip(0) =~= self.mappings@);
        }
        while i < self.mappings.len()
            invariant
                i <= self.mappings@.len(),
                lookup_command(self.mappings@, app@) == lookup_command(
                    self.mappings@.skip(i as int),
                    app@,
                ),
            decreases self.mappings@.len() - i,
        {
            proof {
                assert(self.mappings@.skip(i as int).drop_first() =~= self.mappings@.skip(
                    i as int + 1,
                ));
            }
            if bytes_eq(&self.mappings[i].app_id, app) {
                let c = clone_words(&self.mappings[i].command);
                proof {
                    assert(self.mappings@.skip(i as int)[0] == self.mappings@[i as int]);
                    assert(command_model(c@) =~= command_model(self.mappings@[i as int].command@));
                }
                return c;
            }
            proof {
                assert(self.mappings@.skip(i as int)[0] == self.mappings@[i as int]);
            }
            i = i + 1;
        }
        let mut c: Vec<Vec<u8>> = Vec::new();
        c.push(clone_bytes(app));
        proof {
            assert(self.mappings@.skip(i as int).len() == 0);
            assert(command_model(c@) =~= seq![app@]);
        }
        c
    }
}

/// Byte-string equality.
pub fn bytes_eq(a: &Vec<u8>, b: &Vec<u8>) -> (r: bool)
    ensures
        r == (a@ == b@),
{
    if a.len() != b.len() {
        proof {
            assert(a@ != b@);
        }
        return false;
    }
    let mut i: usize = 0;
    while i < a.len()
        invariant
            i <= a@.len(),
            a@.len() == b@.len(),
            forall|j: int| 0 <= j < i ==> a@[j] == b@[j],
        decreases a@.len() - i,
    {
        if a[i] != b[i] {
            return false;
        }
        i = i + 1;
    }
    proof {
        assert(a@ =~= b@);
    }
    true
}

/// A word-for-word copy of a command.
pub fn clone_words(c: &Vec<Vec<u8>>) -> (r: Vec<Vec<u8>>)
    ensures
        command_model(r@) == command_model(c@),
{
    let mut r: Vec<Vec<u8>> = Vec::new();
    let mut i: usize = 0;
    while i < c.len()
        invariant
            i <= c@.len(),
            r@.len() == i,
            forall|j: int| 0 <= j < i ==> r@[j]@ == c@[j]@,
        decreases c@.len() - i,
    {
        r.push(clone_bytes(&c[i]));
        i = i + 1;
    }
    proof {
        assert(command_model(r@) =~= command_model(c@));
    }
    r
}

} // verus!
