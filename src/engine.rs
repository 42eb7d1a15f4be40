//! The compliance engine's state: the ordered rule store, the jurisdiction
//! directory and the approval ledger, with the operations that read and
//! change them.
//!
//! The host that runs the engine authenticates callers and supplies the
//! current ledger time; the engine decides who may do what and when.
use vstd::prelude::*;

use crate::matching::{
    denial, evaluate_rules, is_denial, is_rules_verdict, MSG_JURISDICTION_NOT_SET,
    MSG_NO_MATCHING_RULE,
};
use crate::types::{
    opt_str_view, Address, ApprovalKey, ContractError, JurisdictionRule, OperationType,
    PendingApproval, ValidationResult,
};

verus! {

/// Seconds after its creation during which an approval can be given and counts.
pub const APPROVAL_WINDOW: u64 = 604800;

struct JurisdictionEntry {
    account: Address,
    label: String,
}

struct ApprovalEntry {
    key: ApprovalKey,
    record: PendingApproval,
}

/// The abstract state of the engine.
pub struct EngineView {
    pub admin: Seq<char>,
    pub governance: Seq<char>,
    pub carbon_asset_contract: Seq<char>,
    /// Active rules, highest priority first.
    pub rules: Seq<JurisdictionRule>,
    /// Jurisdiction label of each account that has one.
    pub jurisdictions: Map<Seq<char>, Seq<char>>,
    /// Approval records by key.
    pub approvals: Map<Seq<u8>, PendingApproval>,
}

/// The compliance engine. The active rules are kept as one ordered sequence,
/// so a rule is stored exactly when it is in force.
pub struct RegulatoryCheck {
    admin: Address,
    governance: Address,
    carbon_asset_contract: Address,
    rules: Vec<JurisdictionRule>,
    jurisdictions: Vec<JurisdictionEntry>,
    approvals: Vec<ApprovalEntry>,
}

spec fn jurisdiction_map(entries: Seq<JurisdictionEntry>) -> Map<Seq<char>, Seq<char>> {
    Map::new(
        |a: Seq<char>| exists|i: int| 0 <= i < entries.len() && (#[trigger] entries[i]).account@ == a,
        |a: Seq<char>|
            entries[choose|i: int| 0 <= i < entries.len() && (#[trigger] entries[i]).account@ == a].label@,
    )
}

spec fn accounts_unique(entries: Seq<JurisdictionEntry>) -> bool {
    forall|i: int, j: int|
        0 <= i < entries.len() && 0 <= j < entries.len() && i != j
            ==> (#[trigger] entries[i]).account@ != (#[trigger] entries[j]).account@
}

spec fn approval_map(entries: Seq<ApprovalEntry>) -> Map<Seq<u8>, PendingApproval> {
    Map::new(
        |k: Seq<u8>| exists|i: int| 0 <= i < entries.len() && (#[trigger] entries[i]).key@ == k,
        |k: Seq<u8>|
            entries[choose|i: int| 0 <= i < entries.len() && (#[trigger] entries[i]).key@ == k].record,
    )
}

spec fn keys_unique(entries: Seq<ApprovalEntry>) -> bool {
    forall|i: int, j: int|
        0 <= i < entries.len() && 0 <= j < entries.len() && i != j
            ==> (#[trigger] entries[i]).key@ != (#[trigger] entries[j]).key@
}

/// No two rules share an id.
pub open spec fn rule_ids_unique(rules: Seq<JurisdictionRule>) -> bool {
    forall|i: int, j: int|
        0 <= i < rules.len() && 0 <= j < rules.len() && i != j
            ==> (#[trigger] rules[i]).rule_id@ != (#[trigger] rules[j]).rule_id@
}

/// A rule with id `id` is stored.
pub open spec fn has_rule(rules: Seq<JurisdictionRule>, id: Seq<char>) -> bool {
    exists|i: int| 0 <= i < rules.len() && (#[trigger] rules[i]).rule_id@ == id
}

/// The ids of the active rules, in priority order.
pub open spec fn active_rule_ids(rules: Seq<JurisdictionRule>) -> Seq<Seq<char>> {
    rules.map_values(|r: JurisdictionRule| r.rule_id@)
}

/// The jurisdiction label of `account`, if one is set.
pub open spec fn jurisdiction_of(s: EngineView, account: Seq<char>) -> Option<Seq<char>> {
    if s.jurisdictions.contains_key(account) {
        Some(s.jurisdictions[account])
    } else {
        None
    }
}

/// An approval created at `timestamp` has expired at time `now`.
pub open spec fn is_expired(timestamp: u64, now: u64) -> bool {
    now as int > timestamp as int + APPROVAL_WINDOW as int
}

/// At time `now` the approval under `key` exists, is approved and has not expired.
pub open spec fn approval_valid(s: EngineView, key: Seq<u8>, now: u64) -> bool {
    &&& s.approvals.contains_key(key)
    &&& s.approvals[key].approved
    &&& !is_expired(s.approvals[key].timestamp, now)
}

/// The rule with id `id` has been taken out of `before`, giving `after`.
pub open spec fn rule_removed(before: EngineView, after: EngineView, id: Seq<char>) -> bool {
    exists|i: int|
        0 <= i < before.rules.len() && (#[trigger] before.rules[i]).rule_id@ == id && after == (
        EngineView { rules: before.rules.remove(i), ..before })
}

/// `r` and `after` are what authorizing the approval under `key` at time
/// `now` gives from `before`: the key must exist and its window must still
/// be open; then the record is marked approved.
pub open spec fn authorization_outcome(
    before: EngineView,
    after: EngineView,
    key: Seq<u8>,
    now: u64,
    r: Result<(), ContractError>,
) -> bool {
    if !before.approvals.contains_key(key) {
        r == Err::<(), ContractError>(ContractError::InvalidApprovalKey) && after == before
    } else if is_expired(before.approvals[key].timestamp, now) {
        r == Err::<(), ContractError>(ContractError::ApprovalExpired) && after == before
    } else {
        r == Ok::<(), ContractError>(()) && after == (EngineView {
            approvals: before.approvals.insert(
                key,
                PendingApproval { approved: true, ..before.approvals[key] },
            ),
            ..before
        })
    }
}

impl View for RegulatoryCheck {
    type V = EngineView;

    closed spec fn view(&self) -> EngineView {
        EngineView {
            admin: self.admin@,
            governance: self.governance@,
            carbon_asset_contract: self.carbon_asset_contract@,
            rules: self.rules@,
            jurisdictions: jurisdiction_map(self.jurisdictions@),
            approvals: approval_map(self.approvals@),
        }
    }
}

proof fn lemma_jurisdiction_lookup(entries: Seq<JurisdictionEntry>, i: int)
    requires
        accounts_unique(entries),
        0 <= i < entries.len(),
    ensures
        jurisdiction_map(entries).contains_key(entries[i].account@),
        jurisdiction_map(entries)[entries[i].account@] == entries[i].label@,
{
    let a = entries[i].account@;
    assert(entries[i].account@ == a);
    let j = choose|j: int| 0 <= j < entries.len() && (#[trigger] entries[j]).account@ == a;
    assert(j == i);
}

proof fn lemma_approval_lookup(entries: Seq<ApprovalEntry>, i: int)
    requires
        keys_unique(entries),
        0 <= i < entries.len(),
    ensures
        approval_map(entries).contains_key(entries[i].key@),
        approval_map(entries)[entries[i].key@] == entries[i].record,
{
    let k = entries[i].key@;
    assert(entries[i].key@ == k);
    let j = choose|j: int| 0 <= j < entries.len() && (#[trigger] entries[j]).key@ == k;
    assert(j == i);
}

/// Whether two approval keys are the same bytes.
fn keys_equal(a: &ApprovalKey, b: &ApprovalKey) -> (r: bool)
    ensures
        r == (a@ == b@),
{
    let mut i: usize = 0;
    while i < 32
        invariant
            i <= 32,
            a@.len() == 32,
            b@.len() == 32,
            forall|j: int| 0 <= j < i ==> a@[j] == b@[j],
        decreases 32 - i,
    {
        if a[i] != b[i] {
            return false;
        }
        i += 1;
    }
    assert(a@ =~= b@);
    true
}

impl RegulatoryCheck {
    /// The engine's internal invariant: rule ids, accounts and approval keys
    /// are each unique.
    pub closed spec fn wf(&self) -> bool {
        &&& rule_ids_unique(self.rules@)
        &&& accounts_unique(self.jurisdictions@)
        &&& keys_unique(self.approvals@)
    }

    /// A new engine with the given principals, no rules, no jurisdictions and
    /// no approvals.
    pub fn initialize(admin: Address, governance: Address, carbon_asset_contract: Address) -> (r:
        RegulatoryCheck)
        ensures
            r.wf(),
            r@.admin == admin@,
            r@.governance == governance@,
            r@.carbon_asset_contract == carbon_asset_contract@,
            r@.rules == Seq::<JurisdictionRule>::empty(),
            r@.jurisdictions == Map::<Seq<char>, Seq<char>>::empty(),
            r@.approvals == Map::<Seq<u8>, PendingApproval>::empty(),
    {
        let r = RegulatoryCheck {
            admin,
            governance,
            carbon_asset_contract,
            rules: Vec::new(),
            jurisdictions: Vec::new(),
            approvals: Vec::new(),
        };
        assert(r@.jurisdictions =~= Map::<Seq<char>, Seq<char>>::empty());
        assert(r@.approvals =~= Map::<Seq<u8>, PendingApproval>::empty());
        r
    }

    fn find_account(&self, account: &Address) -> (r: Option<usize>)
        ensures
            match r {
                Some(i) => i < self.jurisdictions@.len() && self.jurisdictions@[i as int].account@
                    == account@,
                None => forall|i: int|
                    0 <= i < self.jurisdictions@.len() ==> (#[trigger] self.jurisdictions@[i]).account@
                        != account@,
            },
    {
        let mut i: usize = 0;
        while i < self.jurisdictions.len()
            invariant
                i <= self.jurisdictions@.len(),
                forall|j: int| 0 <= j < i ==> (#[trigger] self.jurisdictions@[j]).account@ != account@,
            decreases self.jurisdictions@.len() - i,
        {
            if self.jurisdictions[i].account.id == account.id {
                return Some(i);
            }
            i += 1;
        }
        None
    }

    /// The jurisdiction label of `account`, if one is set. The result depends
    /// on the state alone, so repeated reads with no `set_address_jurisdiction`
    /// between them return the same label.
    pub fn get_address_jurisdiction(&self, account: &Address) -> (r: Option<String>)
        requires
            self.wf(),
        ensures
            opt_str_view(r) == jurisdiction_of(self@, account@),
    {
        match self.find_account(account) {
            Some(i) => {
                proof {
                    lemma_jurisdiction_lookup(self.jurisdictions@, i as int);
                }
                Some(self.jurisdictions[i].label.clone())
            },
            None => {
                assert(!self@.jurisdictions.contains_key(account@));
                None
            },
        }
    }
    /// Sets the jurisdiction label of `account`, replacing any earlier one.
    /// Only the administrator may do so.
    pub fn set_address_jurisdiction(
        &mut self,
        caller: &Address,
        account: Address,
        jurisdiction: String,
    ) -> (r: Result<(), ContractError>)
        requires
            old(self).wf(),
        ensures
            final(self).wf(),
            caller@ != old(self)@.admin ==> r == Err::<(), ContractError>(
                ContractError::NotAuthorized,
            ) && final(self)@ == old(self)@,
            caller@ == old(self)@.admin ==> r == Ok::<(), ContractError>(()) && final(self)@ == (
            EngineView {
                jurisdictions: old(self)@.jurisdictions.insert(account@, jurisdiction@),
                ..old(self)@
            }),
    {
        if caller.id != self.admin.id {
            return Err(ContractError::NotAuthorized);
        }
        let ghost before = self.jurisdictions@;
        match self.find_account(&account) {
            Some(i) => {
                self.jurisdictions.set(i, JurisdictionEntry { account, label: jurisdiction });
                proof {
                    let after = self.jurisdictions@;
                    assert(accounts_unique(after)) by {
                        assert forall|x: int, y: int|
                            0 <= x < after.len() && 0 <= y < after.len() && x != y implies (
                            #[trigger] after[x]).account@ != (#[trigger] after[y]).account@ by {
                            assert(before[x].account@ == after[x].account@);
                            assert(before[y].account@ == after[y].account@);
                        }
                    }
                    self.lemma_jurisdictions_replaced(before, i as int);
                }
            },
            None => {
                self.jurisdictions.push(JurisdictionEntry { account, label: jurisdiction });
                proof {
                    self.lemma_jurisdictions_pushed(before);
                }
            },
        }
        Ok(())
    }

    proof fn lemma_jurisdictions_replaced(&self, before: Seq<JurisdictionEntry>, i: int)
        requires
            accounts_unique(before),
            accounts_unique(self.jurisdictions@),
            0 <= i < before.len(),
            self.jurisdictions@ == before.update(i, self.jurisdictions@[i]),
            self.jurisdictions@[i].account@ == before[i].account@,
        ensures
            jurisdiction_map(self.jurisdictions@) == jurisdiction_map(before).insert(
                before[i].account@,
                self.jurisdictions@[i].label@,
            ),
    {
        let after = self.jurisdictions@;
        let m0 = jurisdiction_map(before);
        let m1 = jurisdiction_map(after);
        let m2 = m0.insert(before[i].account@, after[i].label@);
        lemma_jurisdiction_lookup(after, i);
        assert forall|b: Seq<char>| m1.contains_key(b) <==> m2.contains_key(b) by {
            if m1.contains_key(b) {
                let j = choose|j: int| 0 <= j < after.len() && (#[trigger] after[j]).account@ == b;
                if j != i {
                    lemma_jurisdiction_lookup(before, j);
                }
            }
            if m0.contains_key(b) {
                let j = choose|j: int| 0 <= j < before.len() && (#[trigger] before[j]).account@ == b;
                lemma_jurisdiction_lookup(after, j);
            }
        }
        assert forall|b: Seq<char>| m1.contains_key(b) implies m1[b] == m2[b] by {
            let j = choose|j: int| 0 <= j < after.len() && (#[trigger] after[j]).account@ == b;
            lemma_jurisdiction_lookup(after, j);
            if j != i {
                lemma_jurisdiction_lookup(before, j);
            }
        }
        assert(m1 =~= m2);
    }

    proof fn lemma_jurisdictions_pushed(&self, before: Seq<JurisdictionEntry>)
        requires
            accounts_unique(before),
            self.jurisdictions@.len() == before.len() + 1,
            forall|j: int| 0 <= j < before.len() ==> self.jurisdictions@[j] == before[j],
            forall|j: int|
                0 <= j < before.len() ==> (#[trigger] before[j]).account@
                    != self.jurisdictions@[before.len() as int].account@,
        ensures
            accounts_unique(self.jurisdictions@),
            jurisdiction_map(self.jurisdictions@) == jurisdiction_map(before).insert(
                self.jurisdictions@[before.len() as int].account@,
                self.jurisdictions@[before.len() as int].label@,
            ),
    {
        let after = self.jurisdictions@;
        let n = before.len() as int;
        assert(accounts_unique(after)) by {
            assert forall|x: int, y: int|
                0 <= x < after.len() && 0 <= y < after.len() && x != y implies (
                #[trigger] after[x]).account@ != (#[trigger] after[y]).account@ by {
                if x < n && y < n {
                    assert(before[x] == after[x]);
                    assert(before[y] == after[y]);
                } else if x < n {
                    assert(before[x] == after[x]);
                } else {
                    assert(before[y] == after[y]);
                }
            }
        }
        let m0 = jurisdiction_map(before);
        let m1 = jurisdiction_map(after);
        let m2 = m0.insert(after[n].account@, after[n].label@);
        lemma_jurisdiction_lookup(after, n);
        assert forall|b: Seq<char>| m1.contains_key(b) <==> m2.contains_key(b) by {
            if m1.contains_key(b) {
                let j = choose|j: int| 0 <= j < after.len() && (#[trigger] after[j]).account@ == b;
                if j != n {
                    assert(before[j] == after[j]);
                    lemma_jurisdiction_lookup(before, j);
                }
            }
            if m0.contains_key(b) {
                let j = choose|j: int| 0 <= j < before.len() && (#[trigger] before[j]).account@ == b;
                assert(before[j] == after[j]);
                lemma_jurisdiction_lookup(after, j);
            }
        }
        assert forall|b: Seq<char>| m1.contains_key(b) implies m1[b] == m2[b] by {
            let j = choose|j: int| 0 <= j < after.len() && (#[trigger] after[j]).account@ == b;
            lemma_jurisdiction_lookup(after, j);
            if j != n {
                assert(before[j] == after[j]);
                lemma_jurisdiction_lookup(before, j);
            }
        }
        assert(m1 =~= m2);
    }
    proof fn lemma_approvals_replaced(&self, before: Seq<ApprovalEntry>, i: int)
        requires
            keys_unique(before),
            keys_unique(self.approvals@),
            0 <= i < before.len(),
            self.approvals@ == before.update(i, self.approvals@[i]),
            self.approvals@[i].key@ == before[i].key@,
        ensures
            approval_map(self.approvals@) == approval_map(before).insert(
                before[i].key@,
                self.approvals@[i].record,
            ),
    {
        let after = self.approvals@;
        let m0 = approval_map(before);
        let m1 = approval_map(after);
        let m2 = m0.insert(before[i].key@, after[i].record);
        lemma_approval_lookup(after, i);
        assert forall|b: Seq<u8>| m1.contains_key(b) <==> m2.contains_key(b) by {
            if m1.contains_key(b) {
                let j = choose|j: int| 0 <= j < after.len() && (#[trigger] after[j]).key@ == b;
                if j != i {
                    lemma_approval_lookup(before, j);
                }
            }
            if m0.contains_key(b) {
                let j = choose|j: int| 0 <= j < before.len() && (#[trigger] before[j]).key@ == b;
                lemma_approval_lookup(after, j);
            }
        }
        assert forall|b: Seq<u8>| m1.contains_key(b) implies m1[b] == m2[b] by {
            let j = choose|j: int| 0 <= j < after.len() && (#[trigger] after[j]).key@ == b;
            lemma_approval_lookup(after, j);
            if j != i {
                lemma_approval_lookup(before, j);
            }
        }
        assert(m1 =~= m2);
    }

    proof fn lemma_approvals_pushed(&self, before: Seq<ApprovalEntry>)
        requires
            keys_unique(before),
            self.approvals@.len() == before.len() + 1,
            forall|j: int| 0 <= j < before.len() ==> self.approvals@[j] == before[j],
            forall|j: int|
                0 <= j < before.len() ==> (#[trigger] before[j]).key@
                    != self.approvals@[before.len() as int].key@,
        ensures
            keys_unique(self.approvals@),
            approval_map(self.approvals@) == approval_map(before).insert(
                self.approvals@[before.len() as int].key@,
                self.approvals@[before.len() as int].record,
            ),
    {
        let after = self.approvals@;
        let n = before.len() as int;
        assert(keys_unique(after)) by {
            assert forall|x: int, y: int|
                0 <= x < after.len() && 0 <= y < after.len() && x != y implies (
                #[trigger] after[x]).key@ != (#[trigger] after[y]).key@ by {
                if x < n && y < n {
                    assert(before[x] == after[x]);
                    assert(before[y] == after[y]);
                } else if x < n {
                    assert(before[x] == after[x]);
                } else {
                    assert(before[y] == after[y]);
                }
            }
        }
        let m0 = approval_map(before);
        let m1 = approval_map(after);
        let m2 = m0.insert(after[n].key@, after[n].record);
        lemma_approval_lookup(after, n);
        assert forall|b: Seq<u8>| m1.contains_key(b) <==> m2.contains_key(b) by {
            if m1.contains_key(b) {
                let j = choose|j: int| 0 <= j < after.len() && (#[trigger] after[j]).key@ == b;
                if j != n {
                    assert(before[j] == after[j]);
                    lemma_approval_lookup(before, j);
                }
            }
            if m0.contains_key(b) {
                let j = choose|j: int| 0 <= j < before.len() && (#[trigger] before[j]).key@ == b;
                assert(before[j] == after[j]);
                lemma_approval_lookup(after, j);
            }
        }
        assert forall|b: Seq<u8>| m1.contains_key(b) implies m1[b] == m2[b] by {
            let j = choose|j: int| 0 <= j < after.len() && (#[trigger] after[j]).key@ == b;
            lemma_approval_lookup(after, j);
            if j != n {
                assert(before[j] == after[j]);
                lemma_approval_lookup(before, j);
            }
        }
        assert(m1 =~= m2);
    }
    fn find_approval(&self, key: &ApprovalKey) -> (r: Option<usize>)
        ensures
            match r {
                Some(i) => i < self.approvals@.len() && self.approvals@[i as int].key@ == key@,
                None => forall|i: int|
                    0 <= i < self.approvals@.len() ==> (#[trigger] self.approvals@[i]).key@ != key@,
            },
    {
        let mut i: usize = 0;
        while i < self.approvals.len()
            invariant
                i <= self.approvals@.len(),
                forall|j: int| 0 <= j < i ==> (#[trigger] self.approvals@[j]).key@ != key@,
            decreases self.approvals@.len() - i,
        {
            if keys_equal(&self.approvals[i].key, key) {
                return Some(i);
            }
            i += 1;
        }
        None
    }

    /// Registers a request for sign-off under `approval_key`, created at time
    /// `now` and not yet approved. Anyone may register a request; a record
    /// already held under the same key is replaced.
    pub fn create_pending_approval(
        &mut self,
        approval_key: ApprovalKey,
        token_id: u32,
        source: Address,
        destination: Address,
        operation: OperationType,
        now: u64,
    )
        requires
            old(self).wf(),
        ensures
            final(self).wf(),
            final(self)@ == (EngineView {
                approvals: old(self)@.approvals.insert(
                    approval_key@,
                    PendingApproval {
                        token_id,
                        source,
                        destination,
                        operation,
                        timestamp: now,
                        approved: false,
                    },
                ),
                ..old(self)@
            }),
    {
        let record = PendingApproval {
            token_id,
            source,
            destination,
            operation,
            timestamp: now,
            approved: false,
        };
        let ghost before = self.approvals@;
        match self.find_approval(&approval_key) {
            Some(i) => {
                self.approvals.set(i, ApprovalEntry { key: approval_key, record });
                proof {
                    let after = self.approvals@;
                    assert(keys_unique(after)) by {
                        assert forall|x: int, y: int|
                            0 <= x < after.len() && 0 <= y < after.len() && x != y implies (
                            #[trigger] after[x]).key@ != (#[trigger] after[y]).key@ by {
                            assert(before[x].key@ == after[x].key@);
                            assert(before[y].key@ == after[y].key@);
                        }
                    }
                    self.lemma_approvals_replaced(before, i as int);
                }
            },
            None => {
                self.approvals.push(ApprovalEntry { key: approval_key, record });
                proof {
                    self.lemma_approvals_pushed(before);
                }
            },
        }
    }

    /// Marks the approval under `approval_key` as given, at time `now`. The
    /// host has already authenticated the authority that makes this call.
    pub fn record_authorization(&mut self, approval_key: &ApprovalKey, now: u64) -> (r: Result<
        (),
        ContractError,
    >)
        requires
            old(self).wf(),
        ensures
            final(self).wf(),
            authorization_outcome(old(self)@, final(self)@, approval_key@, now, r),
    {
        let i = match self.find_approval(approval_key) {
            Some(i) => i,
            None => {
                assert(!self@.approvals.contains_key(approval_key@));
                return Err(ContractError::InvalidApprovalKey);
            },
        };
        proof {
            lemma_approval_lookup(self.approvals@, i as int);
        }
        let rec = &self.approvals[i].record;
        if now > rec.timestamp && now - rec.timestamp > APPROVAL_WINDOW {
            return Err(ContractError::ApprovalExpired);
        }
        let approved = PendingApproval {
            token_id: rec.token_id,
            source: rec.source.duplicate(),
            destination: rec.destination.duplicate(),
            operation: rec.operation,
            timestamp: rec.timestamp,
            approved: true,
        };
        let key = self.approvals[i].key;
        let ghost before = self.approvals@;
        self.approvals.set(i, ApprovalEntry { key, record: approved });
        proof {
            let after = self.approvals@;
            assert(keys_unique(after)) by {
                assert forall|x: int, y: int|
                    0 <= x < after.len() && 0 <= y < after.len() && x != y implies (
                    #[trigger] after[x]).key@ != (#[trigger] after[y]).key@ by {
                    assert(before[x].key@ == after[x].key@);
                    assert(before[y].key@ == after[y].key@);
                }
            }
            self.lemma_approvals_replaced(before, i as int);
            assert(approved == PendingApproval { approved: true, ..old(self)@.approvals[approval_key@] });
        }
        Ok(())
    }

    /// Whether the approval under `approval_key` exists, has been given, and
    /// is still within its window at time `now`.
    pub fn check_approval(&self, approval_key: &ApprovalKey, now: u64) -> (r: bool)
        requires
            self.wf(),
        ensures
            r == approval_valid(self@, approval_key@, now),
    {
        match self.find_approval(approval_key) {
            Some(i) => {
                proof {
                    lemma_approval_lookup(self.approvals@, i as int);
                }
                let rec = &self.approvals[i].record;
                rec.approved && !(now > rec.timestamp && now - rec.timestamp > APPROVAL_WINDOW)
            },
            None => {
                assert(!self@.approvals.contains_key(approval_key@));
                false
            },
        }
    }

    fn find_rule(&self, rule_id: &String) -> (r: Option<usize>)
        ensures
            match r {
                Some(i) => i < self.rules@.len() && self.rules@[i as int].rule_id@ == rule_id@,
                None => !has_rule(self.rules@, rule_id@),
            },
    {
        let mut i: usize = 0;
        while i < self.rules.len()
            invariant
                i <= self.rules@.len(),
                forall|j: int| 0 <= j < i ==> (#[trigger] self.rules@[j]).rule_id@ != rule_id@,
            decreases self.rules@.len() - i,
        {
            if self.rules[i].rule_id == *rule_id {
                return Some(i);
            }
            i += 1;
        }
        None
    }

    /// Stores `rule` as the lowest-priority active rule. Only governance may
    /// add rules, and an id that is already stored is refused.
    pub fn add_rule(&mut self, caller: &Address, rule: JurisdictionRule) -> (r: Result<
        (),
        ContractError,
    >)
        requires
            old(self).wf(),
        ensures
            final(self).wf(),
            caller@ != old(self)@.governance ==> r == Err::<(), ContractError>(
                ContractError::NotAuthorized,
            ) && final(self)@ == old(self)@,
            caller@ == old(self)@.governance && has_rule(old(self)@.rules, rule.rule_id@) ==> r
                == Err::<(), ContractError>(ContractError::RuleAlreadyExists) && final(self)@ == old(
            self)@,
            caller@ == old(self)@.governance && !has_rule(old(self)@.rules, rule.rule_id@) ==> r
                == Ok::<(), ContractError>(()) && final(self)@ == (EngineView {
                rules: old(self)@.rules.push(rule),
                ..old(self)@
            }),
    {
        if caller.id != self.governance.id {
            return Err(ContractError::NotAuthorized);
        }
        match self.find_rule(&rule.rule_id) {
            Some(_) => Err(ContractError::RuleAlreadyExists),
            None => {
                let ghost before = self.rules@;
                self.rules.push(rule);
                assert(rule_ids_unique(self.rules@)) by {
                    let after = self.rules@;
                    assert forall|x: int, y: int|
                        0 <= x < after.len() && 0 <= y < after.len() && x != y implies (
                        #[trigger] after[x]).rule_id@ != (#[trigger] after[y]).rule_id@ by {
                        if x < before.len() {
                            assert(after[x] == before[x]);
                        }
                        if y < before.len() {
                            assert(after[y] == before[y]);
                        }
                    }
                }
                Ok(())
            },
        }
    }

    /// Replaces the stored rule that has `rule`'s id, keeping its priority.
    /// Only governance may update rules.
    pub fn update_rule(&mut self, caller: &Address, rule: JurisdictionRule) -> (r: Result<
        (),
        ContractError,
    >)
        requires
            old(self).wf(),
        ensures
            final(self).wf(),
            caller@ != old(self)@.governance ==> r == Err::<(), ContractError>(
                ContractError::NotAuthorized,
            ) && final(self)@ == old(self)@,
            caller@ == old(self)@.governance && !has_rule(old(self)@.rules, rule.rule_id@) ==> r
                == Err::<(), ContractError>(ContractError::RuleNotFound) && final(self)@ == old(
            self)@,
            caller@ == old(self)@.governance && has_rule(old(self)@.rules, rule.rule_id@) ==> r
                == Ok::<(), ContractError>(()) && exists|i: int|
                0 <= i < old(self)@.rules.len() && (#[trigger] old(self)@.rules[i]).rule_id@
                    == rule.rule_id@ && final(self)@ == (EngineView {
                    rules: old(self)@.rules.update(i, rule),
                    ..old(self)@
                }),
    {
        if caller.id != self.governance.id {
            return Err(ContractError::NotAuthorized);
        }
        match self.find_rule(&rule.rule_id) {
            None => Err(ContractError::RuleNotFound),
            Some(i) => {
                let ghost before = self.rules@;
                self.rules.set(i, rule);
                assert(rule_ids_unique(self.rules@)) by {
                    let after = self.rules@;
                    assert forall|x: int, y: int|
                        0 <= x < after.len() && 0 <= y < after.len() && x != y implies (
                        #[trigger] after[x]).rule_id@ != (#[trigger] after[y]).rule_id@ by {
                        assert(after[x].rule_id@ == before[x].rule_id@);
                        assert(after[y].rule_id@ == before[y].rule_id@);
                    }
                }
                assert(old(self)@.rules[i as int].rule_id@ == rule.rule_id@);
                Ok(())
            },
        }
    }

    /// Takes the rule with id `rule_id` out of force: it is neither matched
    /// nor readable afterwards. Only governance may deactivate rules.
    pub fn deactivate_rule(&mut self, caller: &Address, rule_id: &String) -> (r: Result<
        (),
        ContractError,
    >)
        requires
            old(self).wf(),
        ensures
            final(self).wf(),
            caller@ != old(self)@.governance ==> r == Err::<(), ContractError>(
                ContractError::NotAuthorized,
            ) && final(self)@ == old(self)@,
            caller@ == old(self)@.governance && !has_rule(old(self)@.rules, rule_id@) ==> r == Err::<
                (),
                ContractError,
            >(ContractError::RuleNotFound) && final(self)@ == old(self)@,
            caller@ == old(self)@.governance && has_rule(old(self)@.rules, rule_id@) ==> r == Ok::<
                (),
                ContractError,
            >(()) && rule_removed(old(self)@, final(self)@, rule_id@),
    {
        if caller.id != self.governance.id {
            return Err(ContractError::NotAuthorized);
        }
        match self.find_rule(rule_id) {
            None => Err(ContractError::RuleNotFound),
            Some(i) => {
                let ghost before = self.rules@;
                self.rules.remove(i);
                assert(rule_ids_unique(self.rules@)) by {
                    let after = self.rules@;
                    assert forall|x: int, y: int|
                        0 <= x < after.len() && 0 <= y < after.len() && x != y implies (
                        #[trigger] after[x]).rule_id@ != (#[trigger] after[y]).rule_id@ by {
                        let x0 = if x < i { x } else { x + 1 };
                        let y0 = if y < i { y } else { y + 1 };
                        assert(after[x] == before[x0]);
                        assert(after[y] == before[y0]);
                    }
                }
                assert(old(self)@.rules[i as int].rule_id@ == rule_id@);
                Ok(())
            },
        }
    }

    /// The stored rule with id `rule_id`, if any.
    pub fn get_rule(&self, rule_id: &String) -> (r: Option<JurisdictionRule>)
        requires
            self.wf(),
        ensures
            match r {
                Some(rule) => exists|i: int|
                    0 <= i < self@.rules.len() && #[trigger] self@.rules[i] == rule
                        && rule.rule_id@ == rule_id@,
                None => !has_rule(self@.rules, rule_id@),
            },
    {
        match self.find_rule(rule_id) {
            Some(i) => {
                let rule = self.rules[i].duplicate();
                assert(self@.rules[i as int] == rule);
                Some(rule)
            },
            None => None,
        }
    }

    /// The ids of the active rules, highest priority first.
    pub fn get_active_rules(&self) -> (r: Vec<String>)
        ensures
            r@.map_values(|s: String| s@) == active_rule_ids(self@.rules),
    {
        let mut ids: Vec<String> = Vec::new();
        let mut i: usize = 0;
        while i < self.rules.len()
            invariant
                i <= self.rules@.len(),
                ids@.len() == i,
                forall|j: int| 0 <= j < i ==> (#[trigger] ids@[j])@ == self.rules@[j].rule_id@,
            decreases self.rules@.len() - i,
        {
            ids.push(self.rules[i].rule_id.clone());
            i += 1;
        }
        assert(ids@.map_values(|s: String| s@) =~= active_rule_ids(self@.rules));
        ids
    }

    /// Decides whether `operation` from `source_address` to
    /// `destination_address`, invoked from `host_jurisdiction`, is compliant.
    /// Both accounts must have a jurisdiction; then the first active rule that
    /// matches gives the verdict, and when none matches the operation is denied.
    pub fn validate_transaction(
        &self,
        source_address: &Address,
        destination_address: &Address,
        operation: OperationType,
        host_jurisdiction: &String,
    ) -> (r: ValidationResult)
        requires
            self.wf(),
        ensures
            jurisdiction_of(self@, source_address@) is None || jurisdiction_of(
                self@,
                destination_address@,
            ) is None ==> is_denial(r, None, MSG_JURISDICTION_NOT_SET@),
            jurisdiction_of(self@, source_address@) is Some && jurisdiction_of(
                self@,
                destination_address@,
            ) is Some ==> is_rules_verdict(
                r,
                self@.rules,
                jurisdiction_of(self@, source_address@)->0,
                jurisdiction_of(self@, destination_address@)->0,
                host_jurisdiction@,
                operation,
            ),
            jurisdiction_of(self@, source_address@) is Some && jurisdiction_of(
                self@,
                destination_address@,
            ) is Some && self@.rules.len() == 0 ==> is_denial(r, None, MSG_NO_MATCHING_RULE@),
    {
        let source_jur = self.get_address_jurisdiction(source_address);
        let dest_jur = self.get_address_jurisdiction(destination_address);
        match (source_jur, dest_jur) {
            (Some(s), Some(d)) => evaluate_rules(&self.rules, &s, &d, operation, host_jurisdiction),
            _ => denial(None, MSG_JURISDICTION_NOT_SET),
        }
    }

    /// Replaces the administrator. Only the current administrator may do so.
    pub fn update_admin(&mut self, caller: &Address, new_admin: Address) -> (r: Result<
        (),
        ContractError,
    >)
        requires
            old(self).wf(),
        ensures
            final(self).wf(),
            caller@ != old(self)@.admin ==> r == Err::<(), ContractError>(
                ContractError::NotAuthorized,
            ) && final(self)@ == old(self)@,
            caller@ == old(self)@.admin ==> r == Ok::<(), ContractError>(()) && final(self)@ == (
            EngineView { admin: new_admin@, ..old(self)@ }),
    {
        if caller.id != self.admin.id {
            return Err(ContractError::NotAuthorized);
        }
        self.admin = new_admin;
        Ok(())
    }

    /// Replaces the governance principal. Only the current governance may do so.
    pub fn update_governance(&mut self, caller: &Address, new_governance: Address) -> (r: Result<
        (),
        ContractError,
    >)
        requires
            old(self).wf(),
        ensures
            final(self).wf(),
            caller@ != old(self)@.governance ==> r == Err::<(), ContractError>(
                ContractError::NotAuthorized,
            ) && final(self)@ == old(self)@,
            caller@ == old(self)@.governance ==> r == Ok::<(), ContractError>(()) && final(self)@
                == (EngineView { governance: new_governance@, ..old(self)@ }),
    {
        if caller.id != self.governance.id {
            return Err(ContractError::NotAuthorized);
        }
        self.governance = new_governance;
        Ok(())
    }
}

/// Deactivation removes both read paths: once the rule with id `id` has been
/// deactivated, no stored rule has that id, so `get_rule` returns nothing, and
/// the id is not among the active rule ids.
pub proof fn lemma_deactivation_removes_rule(
    before: RegulatoryCheck,
    after: RegulatoryCheck,
    id: Seq<char>,
)
    requires
        before.wf(),
        rule_removed(before@, after@, id),
    ensures
        !has_rule(after@.rules, id),
        !active_rule_ids(after@.rules).contains(id),
{
    let old_rules = before@.rules;
    let i = choose|i: int|
        0 <= i < old_rules.len() && (#[trigger] old_rules[i]).rule_id@ == id && after@ == (
        EngineView { rules: old_rules.remove(i), ..before@ });
    let rules = after@.rules;
    assert forall|j: int| 0 <= j < rules.len() implies (#[trigger] rules[j]).rule_id@ != id by {
        let j0 = if j < i { j } else { j + 1 };
        assert(rules[j] == old_rules[j0]);
    }
    if active_rule_ids(rules).contains(id) {
        let j = choose|j: int| 0 <= j < rules.len() && active_rule_ids(rules)[j] == id;
        assert(rules[j].rule_id@ == id);
    }
}

/// Approval round trip: a request created at time `t` and authorized at
/// `t + 100` is valid at that time; authorizing it at `t + 604801` fails as
/// expired, and it is then no longer valid, approved or not.
pub proof fn lemma_approval_round_trip(
    s0: RegulatoryCheck,
    s1: EngineView,
    s2: EngineView,
    s3: EngineView,
    key: Seq<u8>,
    record: PendingApproval,
    t: u64,
    r_early: Result<(), ContractError>,
    r_late: Result<(), ContractError>,
)
    requires
        t as int + APPROVAL_WINDOW as int + 1 <= u64::MAX as int,
        record.timestamp == t,
        !record.approved,
        s1 == (EngineView { approvals: s0@.approvals.insert(key, record), ..s0@ }),
        authorization_outcome(s1, s2, key, (t + 100) as u64, r_early),
        authorization_outcome(s2, s3, key, (t + APPROVAL_WINDOW + 1) as u64, r_late),
    ensures
        r_early == Ok::<(), ContractError>(()),
        approval_valid(s2, key, (t + 100) as u64),
        r_late == Err::<(), ContractError>(ContractError::ApprovalExpired),
        !approval_valid(s3, key, (t + APPROVAL_WINDOW + 1) as u64),
{
}

} // verus!
