//! The secret-key vault: private key material kept out of the shared
//! certificate backend, keyed by fingerprint, with a mutable role tag
//! and an online flag per record.
//!
//! Role assignment is last-writer-wins per role name: assigning a role
//! first clears every current holder, so at most one fingerprint holds a
//! given role at any instant.

use vstd::prelude::*;

use crate::InternalErr;

verus! {

/// A stored private-key row: the serialized blob, the short key id, and
/// whether the public half is known to carry private capability.
#[derive(Debug)]
pub struct DbCert {
    pub keyid: String,
    pub fingerprint: String,
    pub data: Vec<u8>,
    pub has_private: bool,
}

/// Mathematical image of a `DbCert`.
#[verifier::ext_equal]
pub struct DbCertV {
    pub keyid: Seq<char>,
    pub fingerprint: Seq<char>,
    pub data: Seq<u8>,
    pub has_private: bool,
}

impl DeepView for DbCert {
    type V = DbCertV;

    open spec fn deep_view(&self) -> DbCertV {
        DbCertV {
            keyid: self.keyid@,
            fingerprint: self.fingerprint@,
            data: self.data@,
            has_private: self.has_private,
        }
    }
}

impl Clone for DbCert {
    fn clone(&self) -> (r: Self)
        ensures
            r.deep_view() == self.deep_view(),
    {
        let r = DbCert {
            keyid: self.keyid.clone(),
            fingerprint: self.fingerprint.clone(),
            data: self.data.clone(),
            has_private: self.has_private,
        };
        proof {
            assert(r.data@ =~= self.data@);
        }
        r
    }
}

/// Conflict policy for inserting a row whose key is already present.
#[derive(Debug, Clone, Copy)]
pub enum OnConflict {
    Update,
    Ignore,
    Abort,
}

/// One vault record: private key row plus role tag and online flag.
#[derive(Debug)]
pub struct SecretRecord {
    pub cert: DbCert,
    pub role: Option<String>,
    pub online: bool,
}

/// Mathematical image of a `SecretRecord`.
#[verifier::ext_equal]
pub struct SecretRecordV {
    pub cert: DbCertV,
    pub role: Option<Seq<char>>,
    pub online: bool,
}

impl DeepView for SecretRecord {
    type V = SecretRecordV;

    open spec fn deep_view(&self) -> SecretRecordV {
        SecretRecordV { cert: self.cert.deep_view(), role: self.role.deep_view(), online: self.online }
    }
}

impl Clone for SecretRecord {
    fn clone(&self) -> (r: Self)
        ensures
            r.deep_view() == self.deep_view(),
    {
        let role = match &self.role {
            Some(x) => Some(x.clone()),
            None => None,
        };
        SecretRecord { cert: self.cert.clone(), role, online: self.online }
    }
}

/// Fingerprints are unique across the vault.
pub open spec fn vault_wf(rows: Seq<SecretRecordV>) -> bool {
    forall|i: int, j: int|
        0 <= i < j < rows.len() ==> rows[i].cert.fingerprint != rows[j].cert.fingerprint
}

/// No two rows hold the same role: at most one fingerprint holds a
/// given role at any instant.
pub open spec fn roles_exclusive(rows: Seq<SecretRecordV>) -> bool {
    forall|i: int, j: int|
        0 <= i < j < rows.len() ==> !((#[trigger] rows[i].role) is Some && rows[i].role == (
        #[trigger] rows[j].role))
}

/// Whether the vault holds a row for `fpr`.
pub open spec fn vault_has(rows: Seq<SecretRecordV>, fpr: Seq<char>) -> bool {
    exists|i: int| 0 <= i < rows.len() && rows[i].cert.fingerprint == fpr
}

/// The position of the row keyed `fpr`.
pub open spec fn vault_index(rows: Seq<SecretRecordV>, fpr: Seq<char>) -> int {
    choose|i: int| 0 <= i < rows.len() && rows[i].cert.fingerprint == fpr
}

/// Whether `fpr` holds `role` in the vault.
pub open spec fn holds_role(rows: Seq<SecretRecordV>, fpr: Seq<char>, role: Seq<char>) -> bool {
    exists|i: int|
        0 <= i < rows.len() && rows[i].cert.fingerprint == fpr && rows[i].role == Some(role)
}

/// The effect of `assign_role`: the row keyed `fpr` takes the role, and
/// every other row holding it is cleared.
pub open spec fn assign_role_spec(
    rows: Seq<SecretRecordV>,
    fpr: Seq<char>,
    role: Seq<char>,
) -> Seq<SecretRecordV> {
    Seq::new(
        rows.len(),
        |i: int|
            if rows[i].cert.fingerprint == fpr {
                SecretRecordV { role: Some(role), ..rows[i] }
            } else if rows[i].role == Some(role) {
                SecretRecordV { role: None, ..rows[i] }
            } else {
                rows[i]
            },
    )
}

/// After two assignments of the same role, only the later fingerprint
/// holds it: duplicate role holders are impossible.
pub proof fn lemma_role_last_writer_wins(
    rows: Seq<SecretRecordV>,
    a: Seq<char>,
    b: Seq<char>,
    role: Seq<char>,
)
    requires
        a != b,
    ensures
        !holds_role(assign_role_spec(assign_role_spec(rows, a, role), b, role), a, role),
        forall|i: int|
            0 <= i < rows.len() && (#[trigger] assign_role_spec(
                assign_role_spec(rows, a, role),
                b,
                role,
            )[i].role) == Some(role) ==> assign_role_spec(
                assign_role_spec(rows, a, role),
                b,
                role,
            )[i].cert.fingerprint == b,
{
    let mid = assign_role_spec(rows, a, role);
    let after = assign_role_spec(mid, b, role);
    assert forall|i: int| 0 <= i < after.len() && after[i].role == Some(role) implies after[
    i].cert.fingerprint == b by {
        assert(after[i] == if mid[i].cert.fingerprint == b {
            SecretRecordV { role: Some(role), ..mid[i] }
        } else if mid[i].role == Some(role) {
            SecretRecordV { role: None, ..mid[i] }
        } else {
            mid[i]
        });
    }
}

/// The vault of secret-key records.
pub struct SecretVault {
    pub rows: Vec<SecretRecord>,
}

impl SecretVault {
    /// The mathematical contents of the vault.
    pub open spec fn view_rows(&self) -> Seq<SecretRecordV> {
        self.rows.deep_view()
    }

    /// Vault invariant: one record per fingerprint, and no role held
    /// twice.
    pub open spec fn wf(&self) -> bool {
        vault_wf(self.view_rows()) && roles_exclusive(self.view_rows())
    }

    /// An empty vault.
    pub fn new() -> (r: SecretVault)
        ensures
            r.wf(),
            r.view_rows() == Seq::<SecretRecordV>::empty(),
    {
        let r = SecretVault { rows: Vec::new() };
        proof {
            assert(r.view_rows() =~= Seq::<SecretRecordV>::empty());
        }
        r
    }

    /// The position of the record keyed `fpr`, if any.
    fn find(&self, fpr: &String) -> (r: Option<usize>)
        requires
            self.wf(),
        ensures
            match r {
                Some(i) => i < self.view_rows().len() && self.view_rows()[
                i as int].cert.fingerprint == fpr@ && i as int == vault_index(
                    self.view_rows(),
                    fpr@,
                ),
                None => !vault_has(self.view_rows(), fpr@),
            },
    {
        let mut i: usize = 0;
        while i < self.rows.len()
            invariant
                self.wf(),
                i <= self.rows@.len(),
                forall|j: int| 0 <= j < i ==> self.view_rows()[j].cert.fingerprint != fpr@,
            decreases self.rows@.len() - i,
        {
            proof {
                assert(self.view_rows()[i as int] == self.rows@[i as int].deep_view());
            }
            if self.rows[i].cert.fingerprint.eq(fpr) {
                proof {
                    let k = vault_index(self.view_rows(), fpr@);
                    assert(vault_has(self.view_rows(), fpr@)) by {
                        assert(self.view_rows()[i as int].cert.fingerprint == fpr@);
                    }
                    assert(0 <= k < self.view_rows().len() && self.view_rows()[
                    k].cert.fingerprint == fpr@);
                    if k != i as int {
                        assert(self.view_rows()[k].cert.fingerprint == self.view_rows()[
                        i as int].cert.fingerprint);
                    }
                }
                return Some(i);
            }
            i += 1;
        }
        None
    }

    /// Insert a record under the given conflict policy: replace the
    /// existing row, keep it, or refuse.  A record enters the vault
    /// without a role; roles are granted only through `assign_role`,
    /// which is how the at-most-one-holder invariant stands.
    pub fn insert_on_conflict(&mut self, rec: SecretRecord, on_conflict: OnConflict) -> (r: Result<
        (),
        InternalErr,
    >)
        requires
            old(self).wf(),
            rec.deep_view().role is None,
        ensures
            final(self).wf(),
            vault_has(old(self).view_rows(), rec.deep_view().cert.fingerprint) ==> match on_conflict {
                OnConflict::Update => r is Ok && final(self).view_rows()
                    == old(self).view_rows().update(
                    vault_index(old(self).view_rows(), rec.deep_view().cert.fingerprint),
                    rec.deep_view(),
                ),
                OnConflict::Ignore => r is Ok && final(self).view_rows() == old(self).view_rows(),
                OnConflict::Abort => (r matches Err(InternalErr::Generic(_)))
                    && final(self).view_rows() == old(self).view_rows(),
            },
            !vault_has(old(self).view_rows(), rec.deep_view().cert.fingerprint) ==> r is Ok
                && final(self).view_rows() == old(self).view_rows().push(rec.deep_view()),
            vault_has(final(self).view_rows(), rec.deep_view().cert.fingerprint) || (r matches Err(
                InternalErr::Generic(_),
            )),
    {
        let ghost v0 = self.view_rows();
        match self.find(&rec.cert.fingerprint) {
            Some(i) => {
                match on_conflict {
                    OnConflict::Update => {
                        let slot = &mut self.rows[i];
                        *slot = rec;
                        proof {
                            assert(self.view_rows() =~= v0.update(
                                i as int,
                                self.rows@[i as int].deep_view(),
                            ));
                            assert forall|x: int, y: int|
                                0 <= x < y < self.view_rows().len() implies self.view_rows()[
                            x].cert.fingerprint != self.view_rows()[y].cert.fingerprint by {
                                assert(v0[x].cert.fingerprint != v0[y].cert.fingerprint);
                            }
                            assert(vault_has(self.view_rows(), v0[i as int].cert.fingerprint)) by {
                                assert(self.view_rows()[i as int].cert.fingerprint == v0[
                                i as int].cert.fingerprint);
                            }
                        }
                        Ok(())
                    },
                    OnConflict::Ignore => {
                        proof {
                            assert(vault_has(self.view_rows(), rec.deep_view().cert.fingerprint))
                                by {
                                assert(self.view_rows()[i as int].cert.fingerprint
                                    == rec.deep_view().cert.fingerprint);
                            }
                        }
                        Ok(())
                    },
                    OnConflict::Abort => Err(InternalErr::Generic("row already present")),
                }
            },
            None => {
                self.rows.push(rec);
                proof {
                    assert(self.view_rows() =~= v0.push(self.rows@.last().deep_view()));
                    assert forall|x: int, y: int|
                        0 <= x < y < self.view_rows().len() implies self.view_rows()[
                    x].cert.fingerprint != self.view_rows()[y].cert.fingerprint by {
                        if y < v0.len() {
                            assert(v0[x].cert.fingerprint != v0[y].cert.fingerprint);
                        } else {
                            assert(!(0 <= x < v0.len() && v0[x].cert.fingerprint
                                == self.view_rows()[y].cert.fingerprint));
                        }
                    }
                    assert(vault_has(self.view_rows(), rec.deep_view().cert.fingerprint)) by {
                        assert(self.view_rows()[v0.len() as int].cert.fingerprint
                            == rec.deep_view().cert.fingerprint);
                    }
                }
                Ok(())
            },
        }
    }

    /// Whether the vault holds a private-key row for `fpr`.
    pub fn contains(&self, fpr: &String) -> (r: bool)
        requires
            self.wf(),
        ensures
            r == vault_has(self.view_rows(), fpr@),
    {
        self.find(fpr).is_some()
    }

    /// Fetch the private-key row for `fpr`, or `NotFound`.
    pub fn get_by_fingerprint(&self, fpr: &String) -> (r: Result<DbCert, InternalErr>)
        requires
            self.wf(),
        ensures
            match r {
                Ok(c) => vault_has(self.view_rows(), fpr@) && c.deep_view() == self.view_rows()[
                    vault_index(self.view_rows(), fpr@)
                ].cert,
                Err(e) => !vault_has(self.view_rows(), fpr@) && e matches InternalErr::NotFound(
                    _,
                ),
            },
    {
        match self.find(fpr) {
            Some(i) => Ok(self.rows[i].cert.clone()),
            None => Err(InternalErr::NotFound("no private key for this fingerprint")),
        }
    }

    /// Whether the identity `fpr` is marked online (its certifications
    /// may be exposed to third parties).  Unknown fingerprints are
    /// offline.
    pub fn check_online(&self, fpr: &String) -> (r: bool)
        requires
            self.wf(),
        ensures
            r == (vault_has(self.view_rows(), fpr@) && self.view_rows()[
                vault_index(self.view_rows(), fpr@)
            ].online),
    {
        match self.find(fpr) {
            Some(i) => self.rows[i].online,
            None => false,
        }
    }

    /// Remove the private material for `fpr`; the private capability is
    /// lost, any public stub elsewhere stays.
    pub fn delete(&mut self, fpr: &String) -> (r: Result<(), InternalErr>)
        requires
            old(self).wf(),
        ensures
            final(self).wf(),
            !vault_has(final(self).view_rows(), fpr@),
            match r {
                Ok(()) => vault_has(old(self).view_rows(), fpr@) && final(self).view_rows()
                    =~= old(self).view_rows().remove(vault_index(old(self).view_rows(), fpr@)),
                Err(e) => !vault_has(old(self).view_rows(), fpr@) && *final(self) == *old(self)
                    && e matches InternalErr::NotFound(_),
            },
    {
        let ghost v0 = self.view_rows();
        match self.find(fpr) {
            Some(i) => {
                self.rows.remove(i);
                proof {
                    assert(self.view_rows() =~= v0.remove(i as int));
                    assert forall|a: int, b: int|
                        0 <= a < b < self.view_rows().len() implies self.view_rows()[
                    a].cert.fingerprint != self.view_rows()[b].cert.fingerprint by {
                        let sa = if a < i as int { a } else { a + 1 };
                        let sb = if b < i as int { b } else { b + 1 };
                        assert(self.view_rows()[a] == v0[sa]);
                        assert(self.view_rows()[b] == v0[sb]);
                    }
                    assert forall|j: int| 0 <= j < self.view_rows().len()
                        implies self.view_rows()[j].cert.fingerprint != fpr@ by {
                        let sj = if j < i as int { j } else { j + 1 };
                        assert(self.view_rows()[j] == v0[sj]);
                        if v0[sj].cert.fingerprint == fpr@ {
                            assert(v0[i as int].cert.fingerprint == fpr@);
                        }
                    }
                }
                Ok(())
            },
            None => Err(InternalErr::NotFound("no private key for this fingerprint")),
        }
    }

    /// Assign `role` to `fpr`, clearing any current holder first:
    /// last-writer-wins, and never two holders at once.
    pub fn assign_role(&mut self, fpr: &String, role: &String) -> (r: Result<(), InternalErr>)
        requires
            old(self).wf(),
        ensures
            final(self).wf(),
            match r {
                Ok(()) => vault_has(old(self).view_rows(), fpr@) && final(self).view_rows()
                    == assign_role_spec(old(self).view_rows(), fpr@, role@),
                Err(e) => !vault_has(old(self).view_rows(), fpr@) && *final(self) == *old(self)
                    && e matches InternalErr::NotFound(_),
            },
    {
        let ghost v0 = self.view_rows();
        if self.find(fpr).is_none() {
            return Err(InternalErr::NotFound("no private key for this fingerprint"));
        }
        let ghost spec_rows = assign_role_spec(v0, fpr@, role@);
        let mut out: Vec<SecretRecord> = Vec::new();
        let mut i: usize = 0;
        while i < self.rows.len()
            invariant
                old(self).wf(),
                *self == *old(self),
                v0 == self.view_rows(),
                spec_rows == assign_role_spec(v0, fpr@, role@),
                i <= self.rows@.len(),
                self.rows@.len() == v0.len(),
                out.deep_view() == spec_rows.subrange(0, i as int),
            decreases self.rows@.len() - i,
        {
            proof {
                assert(v0[i as int] == self.rows@[i as int].deep_view());
            }
            let row = &self.rows[i];
            let holds = match &row.role {
                Some(x) => x.eq(role),
                None => false,
            };
            let nr = if row.cert.fingerprint.eq(fpr) {
                SecretRecord { cert: row.cert.clone(), role: Some(role.clone()), online: row.online }
            } else if holds {
                SecretRecord { cert: row.cert.clone(), role: None, online: row.online }
            } else {
                row.clone()
            };
            proof {
                assert(nr.deep_view() == spec_rows[i as int]);
            }
            let ghost opre = out.deep_view();
            out.push(nr);
            proof {
                assert(out.deep_view() =~= opre.push(spec_rows[i as int]));
                assert(out.deep_view() =~= spec_rows.subrange(0, i + 1));
            }
            i += 1;
        }
        self.rows = out;
        proof {
            assert(spec_rows.subrange(0, v0.len() as int) =~= spec_rows);
            assert(self.view_rows() == spec_rows);
            assert forall|x: int, y: int|
                0 <= x < y < self.view_rows().len() implies self.view_rows()[
            x].cert.fingerprint != self.view_rows()[y].cert.fingerprint by {
                assert(self.view_rows()[x].cert.fingerprint == v0[x].cert.fingerprint);
                assert(self.view_rows()[y].cert.fingerprint == v0[y].cert.fingerprint);
                assert(v0[x].cert.fingerprint != v0[y].cert.fingerprint);
            }
        }
        Ok(())
    }
}

} // verus!
