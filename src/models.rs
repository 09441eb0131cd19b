//! Credential records and the vault that holds them.
use vstd::prelude::*;

verus! {

/// One credential entry.
pub struct PasswordEntry {
    /// Stable identifier: the 128 bits of a UUID.
    pub id: u128,
    pub website: String,
    pub username: String,
    /// The secret; only the encrypted at-rest form of a vault carries it.
    pub password: String,
    pub notes: String,
    pub tags: Vec<String>,
}

/// An ordered collection of records with a format version.
pub struct PasswordVault {
    pub version: u8,
    pub entries: Vec<PasswordEntry>,
}

/// The two encoded forms of a vault.
#[derive(Debug, Clone, Copy, PartialEq, Eq, Structural)]
pub enum Schema {
    /// The at-rest form inside the encrypted blob: every field, the
    /// password included.
    Full,
    /// The export and display form: every field but the password.
    Public,
}

/// The password that `schema` carries for an entry whose password is `password`.
pub open spec fn carried_password(password: Seq<char>, schema: Schema) -> Seq<char> {
    match schema {
        Schema::Full => password,
        Schema::Public => Seq::empty(),
    }
}

/// Whether `b` is `a` as `schema` carries it.
pub open spec fn entry_carried(a: PasswordEntry, b: PasswordEntry, schema: Schema) -> bool {
    &&& b.id == a.id
    &&& b.website@ == a.website@
    &&& b.username@ == a.username@
    &&& b.password@ == carried_password(a.password@, schema)
    &&& b.notes@ == a.notes@
    &&& b.tags@.len() == a.tags@.len()
    &&& forall|i: int| 0 <= i < a.tags@.len() ==> (#[trigger] b.tags@[i])@ == a.tags@[i]@
}

impl PasswordEntry {
    /// This entry as `schema` carries it: under the public schema the
    /// password is left empty.
    pub fn carried_by(&self, schema: Schema) -> (r: PasswordEntry)
        ensures
            entry_carried(*self, r, schema),
    {
        let mut tags: Vec<String> = Vec::new();
        let mut i: usize = 0;
        while i < self.tags.len()
            invariant
                i <= self.tags@.len(),
                tags@.len() == i,
                forall|j: int| 0 <= j < i ==> (#[trigger] tags@[j])@ == self.tags@[j]@,
            decreases self.tags@.len() - i,
        {
            tags.push(self.tags[i].clone());
            i += 1;
        }
        let password = match schema {
            Schema::Full => self.password.clone(),
            Schema::Public => String::new(),
        };
        PasswordEntry {
            id: self.id,
            website: self.website.clone(),
            username: self.username.clone(),
            password,
            notes: self.notes.clone(),
            tags,
        }
    }
}

impl PasswordVault {
    /// This vault as `schema` carries it, entry by entry, in order.
    pub fn carried_by(&self, schema: Schema) -> (r: PasswordVault)
        ensures
            r.version == self.version,
            r.entries@.len() == self.entries@.len(),
            forall|i: int|
                0 <= i < self.entries@.len() ==> entry_carried(
                    self.entries@[i],
                    #[trigger] r.entries@[i],
                    schema,
                ),
    {
        let mut entries: Vec<PasswordEntry> = Vec::new();
        let mut i: usize = 0;
        while i < self.entries.len()
            invariant
                i <= self.entries@.len(),
                entries@.len() == i,
                forall|j: int|
                    0 <= j < i ==> entry_carried(self.entries@[j], #[trigger] entries@[j], schema),
            decreases self.entries@.len() - i,
        {
            let e = self.entries[i].carried_by(schema);
            entries.push(e);
            i += 1;
        }
        PasswordVault { version: self.version, entries }
    }
}

} // verus!
