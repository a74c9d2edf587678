//! The engineer registry: credentials of maintenance engineers, issued by trusted
//! issuers, with expiry and revocation.

use vstd::prelude::*;

use crate::paging::{copy_all, Duplicate};
use crate::table::Table;
use crate::Address;

verus! {

/// The failures of the engineer registry.
#[derive(Clone, Copy, Debug, PartialEq, Eq, Structural)]
pub enum ContractError {
    CredentialAlreadyRevoked,
    UnauthorizedAdmin,
    EngineerNotFound,
    NotInitialized,
    AdminAlreadyInitialized,
    UntrustedIssuer,
    InvalidCredentialHash,
    Paused,
}

/// An engineer's credential.
#[derive(Debug, PartialEq, Eq)]
pub struct Engineer {
    pub address: Address,
    pub credential_hash: [u8; 32],
    pub issuer: Address,
    pub active: bool,
    pub issued_at: u64,
    pub expires_at: u64,
}

impl Duplicate for Engineer {
    fn duplicate(&self) -> (copy: Self) {
        Engineer {
            address: self.address.clone(),
            credential_hash: self.credential_hash,
            issuer: self.issuer.clone(),
            active: self.active,
            issued_at: self.issued_at,
            expires_at: self.expires_at,
        }
    }
}

/// What the registry publishes when its state changes.
#[derive(Debug, PartialEq, Eq)]
pub enum EngineerEvent {
    /// `REG_ENG`
    EngineerRegistered {
        engineer: Address,
        issuer: Address,
        credential_hash: [u8; 32],
        timestamp: u64,
    },
    /// `REV_CRED`
    CredentialRevoked { engineer: Address, issuer: Address, timestamp: u64 },
    /// `ISS_ADD`
    IssuerAdded { admin: Address, issuer: Address },
    /// `ISS_REM`
    IssuerRemoved { admin: Address, issuer: Address },
}

/// The engineer registry's state, as the contract keeps it in storage.
pub struct EngineerRegistry {
    engineers: Table<Address, Engineer>,
    admin: Option<Address>,
    paused: bool,
    trusted: Table<Address, ()>,
    issuer_list: Vec<Address>,
    issuer_engineers: Table<Address, Vec<Address>>,
    events: Vec<EngineerEvent>,
}

/// The registry's state as mathematical values.
pub struct EngineerRegistryView {
    /// engineer address to credential
    pub engineers: Map<Seq<char>, Engineer>,
    pub admin: Option<Seq<char>>,
    pub paused: bool,
    /// the trusted issuers
    pub trusted: Set<Seq<char>>,
    /// the trusted issuers, in the order they were added
    pub issuer_list: Seq<Address>,
    /// issuer to the engineers it has credentialed, in order, with repeats
    pub issuer_engineers: Map<Seq<char>, Seq<Address>>,
    /// everything published so far, oldest first
    pub events: Seq<EngineerEvent>,
}

pub open spec fn option_view(a: Option<Address>) -> Option<Seq<char>> {
    match a {
        Some(x) => Some(x@),
        None => None,
    }
}

impl View for EngineerRegistry {
    type V = EngineerRegistryView;

    closed spec fn view(&self) -> EngineerRegistryView {
        EngineerRegistryView {
            engineers: self.engineers@,
            admin: option_view(self.admin),
            paused: self.paused,
            trusted: self.trusted@.dom(),
            issuer_list: self.issuer_list@,
            issuer_engineers: self.issuer_engineers@.map_values(|l: Vec<Address>| l@),
            events: self.events@,
        }
    }
}

/// Whether the credential of `engineer` is valid at ledger time `now`: it exists, has
/// not been revoked, and has not expired.
pub open spec fn verified(v: EngineerRegistryView, engineer: Seq<char>, now: u64) -> bool {
    v.engineers.contains_key(engineer) && v.engineers[engineer].active && now
        < v.engineers[engineer].expires_at
}

/// Whether some item of `s` is the address `a`.
pub open spec fn holds_address(s: Seq<Address>, a: Seq<char>) -> bool {
    exists|i: int| 0 <= i < s.len() && #[trigger] s[i]@ == a
}

/// No address occurs twice in `s`.
pub open spec fn distinct_addresses(s: Seq<Address>) -> bool {
    forall|i: int, j: int|
        #![trigger s[i], s[j]]
        0 <= i < s.len() && 0 <= j < s.len() && i != j ==> s[i]@ != s[j]@
}

/// The addresses of `s` other than `a`, in order.
pub open spec fn without_address(s: Seq<Address>, a: Seq<char>) -> Seq<Address> {
    s.filter(|x: Address| x@ != a)
}

/// The engineers listed under `issuer` (none where the issuer has no list).
pub open spec fn credentialed_by(v: EngineerRegistryView, issuer: Seq<char>) -> Seq<Address> {
    if v.issuer_engineers.contains_key(issuer) {
        v.issuer_engineers[issuer]
    } else {
        Seq::empty()
    }
}

/// What holds of the registry's state between calls.
pub open spec fn engineer_registry_invariant(v: EngineerRegistryView) -> bool {
    // each credential is filed under its engineer's address
    &&& forall|e: Seq<char>| #[trigger]
        v.engineers.contains_key(e) ==> v.engineers[e].address@ == e
    // the issuer list holds exactly the trusted issuers, each once
    &&& distinct_addresses(v.issuer_list)
    &&& forall|a: Seq<char>| #[trigger] v.trusted.contains(a) <==> holds_address(v.issuer_list, a)
}

/// Why a call that only the admin may make is refused, if it is.
pub open spec fn admin_error(v: EngineerRegistryView, caller: Seq<char>) -> Option<ContractError> {
    match v.admin {
        None => Some(ContractError::NotInitialized),
        Some(a) => if a == caller {
            None
        } else {
            Some(ContractError::UnauthorizedAdmin)
        },
    }
}

/// Why a call that only the admin may make, and not while paused, is refused, if it is.
pub open spec fn unpaused_admin_error(v: EngineerRegistryView, caller: Seq<char>) -> Option<
    ContractError,
> {
    if v.paused {
        Some(ContractError::Paused)
    } else {
        admin_error(v, caller)
    }
}

/// Whether a credential hash is all zeros.
pub open spec fn zero_hash(h: Seq<u8>) -> bool {
    forall|i: int| 0 <= i < h.len() ==> h[i] == 0u8
}

/// Why a registration is refused, if it is.
pub open spec fn register_engineer_error(
    v: EngineerRegistryView,
    credential_hash: Seq<u8>,
    issuer: Seq<char>,
) -> Option<ContractError> {
    if v.paused {
        Some(ContractError::Paused)
    } else if !v.trusted.contains(issuer) {
        Some(ContractError::UntrustedIssuer)
    } else if zero_hash(credential_hash) {
        Some(ContractError::InvalidCredentialHash)
    } else {
        None
    }
}

/// The state after `issuer` credentials `engineer` at ledger time `now` for
/// `validity_period` seconds; an earlier credential of the engineer is replaced.
pub open spec fn register_engineer_effect(
    v: EngineerRegistryView,
    engineer: Address,
    credential_hash: [u8; 32],
    issuer: Address,
    validity_period: u64,
    now: u64,
) -> EngineerRegistryView {
    EngineerRegistryView {
        engineers: v.engineers.insert(
            engineer@,
            Engineer {
                address: engineer,
                credential_hash: credential_hash,
                issuer: issuer,
                active: true,
                issued_at: now,
                expires_at: (now + validity_period) as u64,
            },
        ),
        issuer_engineers: v.issuer_engineers.insert(
            issuer@,
            credentialed_by(v, issuer@).push(engineer),
        ),
        events: v.events.push(
            EngineerEvent::EngineerRegistered {
                engineer: engineer,
                issuer: issuer,
                credential_hash: credential_hash,
                timestamp: now,
            },
        ),
        ..v
    }
}

/// Why a revocation is refused, if it is.
pub open spec fn revoke_error(v: EngineerRegistryView, engineer: Seq<char>) -> Option<ContractError> {
    if v.paused {
        Some(ContractError::Paused)
    } else if !v.engineers.contains_key(engineer) {
        Some(ContractError::EngineerNotFound)
    } else if !v.engineers[engineer].active {
        Some(ContractError::CredentialAlreadyRevoked)
    } else {
        None
    }
}

/// The state after the credential of `engineer` is revoked at ledger time `now`.
pub open spec fn revoke_effect(v: EngineerRegistryView, engineer: Seq<char>, now: u64) -> EngineerRegistryView {
    let record = v.engineers[engineer];
    EngineerRegistryView {
        engineers: v.engineers.insert(engineer, Engineer { active: false, ..record }),
        events: v.events.push(
            EngineerEvent::CredentialRevoked {
                engineer: record.address,
                issuer: record.issuer,
                timestamp: now,
            },
        ),
        ..v
    }
}

/// The state after `admin` adds `issuer` to the trusted issuers.
pub open spec fn add_issuer_effect(v: EngineerRegistryView, admin: Address, issuer: Address) -> EngineerRegistryView {
    EngineerRegistryView {
        trusted: v.trusted.insert(issuer@),
        issuer_list: if holds_address(v.issuer_list, issuer@) {
            v.issuer_list
        } else {
            v.issuer_list.push(issuer)
        },
        events: v.events.push(EngineerEvent::IssuerAdded { admin: admin, issuer: issuer }),
        ..v
    }
}

/// The state after `admin` takes `issuer` off the trusted issuers, announcing it.
pub open spec fn remove_issuer_effect(v: EngineerRegistryView, admin: Address, issuer: Address) -> EngineerRegistryView {
    EngineerRegistryView {
        trusted: v.trusted.remove(issuer@),
        issuer_list: without_address(v.issuer_list, issuer@),
        events: v.events.push(EngineerEvent::IssuerRemoved { admin: admin, issuer: issuer }),
        ..v
    }
}

/// Filtering an address out of a list.
pub proof fn lemma_without_address(s: Seq<Address>, a: Seq<char>)
    ensures
        forall|x: Seq<char>| #[trigger]
            holds_address(without_address(s, a), x) <==> (holds_address(s, x) && x != a),
        distinct_addresses(s) ==> distinct_addresses(without_address(s, a)),
    decreases s.len(),
{
    reveal(Seq::filter);
    if s.len() > 0 {
        let t = s.drop_last();
        let last = s.last();
        lemma_without_address(t, a);
        let ft = without_address(t, a);
        let fs = without_address(s, a);
        assert(fs == (if last@ != a {
            ft.push(last)
        } else {
            ft
        }));
        assert forall|x: Seq<char>| #[trigger]
            holds_address(fs, x) <==> (holds_address(s, x) && x != a) by {
            if holds_address(s, x) && x != a {
                let i = choose|i: int| 0 <= i < s.len() && #[trigger] s[i]@ == x;
                if i < s.len() - 1 {
                    assert(t[i]@ == x);
                    assert(holds_address(t, x));
                    assert(holds_address(ft, x));
                    let j = choose|j: int| 0 <= j < ft.len() && #[trigger] ft[j]@ == x;
                    assert(fs[j]@ == x);
                } else {
                    assert(fs[ft.len() as int]@ == x);
                }
            }
            if holds_address(fs, x) {
                let j = choose|j: int| 0 <= j < fs.len() && #[trigger] fs[j]@ == x;
                if j < ft.len() {
                    assert(ft[j]@ == x);
                    assert(holds_address(ft, x));
                    assert(holds_address(t, x));
                    let i = choose|i: int| 0 <= i < t.len() && #[trigger] t[i]@ == x;
                    assert(s[i]@ == x);
                } else {
                    assert(s[s.len() - 1]@ == x);
                }
            }
        }
        if distinct_addresses(s) {
            assert(distinct_addresses(t)) by {
                assert forall|i: int, j: int|
                    0 <= i < t.len() && 0 <= j < t.len() && i != j implies t[i]@ != t[j]@ by {
                    assert(s[i] == t[i] && s[j] == t[j]);
                }
            }
            if last@ != a {
                assert(!holds_address(ft, last@)) by {
                    if holds_address(ft, last@) {
                        assert(holds_address(t, last@));
                        let i = choose|i: int| 0 <= i < t.len() && #[trigger] t[i]@ == last@;
                        assert(s[i]@ == s[s.len() - 1]@);
                    }
                }
                assert forall|i: int, j: int|
                    0 <= i < fs.len() && 0 <= j < fs.len() && i != j implies fs[i]@ != fs[j]@ by {
                    if i < ft.len() && j < ft.len() {
                    } else if i < ft.len() {
                        assert(ft[i]@ == fs[i]@);
                    } else {
                        assert(ft[j]@ == fs[j]@);
                    }
                }
            }
        }
    } else {
        assert(without_address(s, a) =~= s);
    }
}

/// Whether some item of `list` is the address `a`.
fn list_holds(list: &Vec<Address>, a: &Address) -> (r: bool)
    ensures
        r == holds_address(list@, a@),
{
    let mut i: usize = 0;
    while i < list.len()
        invariant
            i <= list@.len(),
            forall|j: int| 0 <= j < i ==> #[trigger] list@[j]@ != a@,
        decreases list@.len() - i,
    {
        if list[i] == *a {
            return true;
        }
        i = i + 1;
    }
    false
}

/// Copies `list` leaving out the address `a`.
fn copy_without_address(list: &Vec<Address>, a: &Address) -> (r: Vec<Address>)
    ensures
        r@ == without_address(list@, a@),
{
    let mut r: Vec<Address> = Vec::new();
    let mut i: usize = 0;
    while i < list.len()
        invariant
            i <= list@.len(),
            r@ == without_address(list@.take(i as int), a@),
        decreases list@.len() - i,
    {
        proof {
            reveal_with_fuel(Seq::<_>::filter, 1);
            assert(list@.take(i + 1).drop_last() =~= list@.take(i as int));
        }
        if list[i] != *a {
            r.push(list[i].clone());
        }
        i = i + 1;
    }
    assert(list@.take(list@.len() as int) =~= list@);
    r
}

/// Whether a credential hash is all zeros.
fn is_zero_hash(h: &[u8; 32]) -> (r: bool)
    ensures
        r == zero_hash(h@),
{
    let mut i: usize = 0;
    while i < 32
        invariant
            i <= 32,
            h@.len() == 32,
            forall|j: int| 0 <= j < i ==> h@[j] == 0u8,
        decreases 32 - i,
    {
        if h[i] != 0 {
            return false;
        }
        i = i + 1;
    }
    true
}

impl EngineerRegistry {
    /// The invariant of a registry state.
    pub open spec fn wf(&self) -> bool {
        engineer_registry_invariant(self@)
    }

    /// A freshly deployed registry: no admin, no trusted issuers, no engineers.
    pub fn new() -> (r: Self)
        ensures
            r.wf(),
            r@.engineers == Map::<Seq<char>, Engineer>::empty(),
            r@.admin is None,
            !r@.paused,
            r@.trusted == Set::<Seq<char>>::empty(),
            r@.issuer_list == Seq::<Address>::empty(),
            r@.issuer_engineers == Map::<Seq<char>, Seq<Address>>::empty(),
            r@.events == Seq::<EngineerEvent>::empty(),
    {
        let r = EngineerRegistry {
            engineers: Table::new(),
            admin: None,
            paused: false,
            trusted: Table::new(),
            issuer_list: Vec::new(),
            issuer_engineers: Table::new(),
            events: Vec::new(),
        };
        assert(r@.trusted =~= Set::<Seq<char>>::empty());
        assert(r@.issuer_engineers =~= Map::<Seq<char>, Seq<Address>>::empty());
        r
    }

    /// Everything the registry has published, oldest first.
    pub fn events(&self) -> (r: &Vec<EngineerEvent>)
        ensures
            r@ == self@.events,
    {
        &self.events
    }

    /// Whether the registry is paused.
    pub fn is_paused(&self) -> (r: bool)
        ensures
            r == self@.paused,
    {
        self.paused
    }

    /// Whether the credential of `engineer` is valid at ledger time `now`.
    pub fn verify_engineer(&self, engineer: &Address, now: u64) -> (r: bool)
        ensures
            r == verified(self@, engineer@, now),
    {
        match self.engineers.get(engineer) {
            Some(record) => record.active && now < record.expires_at,
            None => false,
        }
    }

    /// The credential of `engineer`.
    pub fn get_engineer(&self, engineer: &Address) -> (r: Result<Engineer, ContractError>)
        ensures
            match r {
                Ok(record) => self@.engineers.contains_key(engineer@) && record
                    == self@.engineers[engineer@],
                Err(e) => !self@.engineers.contains_key(engineer@) && e
                    == ContractError::EngineerNotFound,
            },
    {
        match self.engineers.get(engineer) {
            Some(record) => Ok(record.duplicate()),
            None => Err(ContractError::EngineerNotFound),
        }
    }

    /// Whether `issuer` is trusted.
    pub fn is_trusted_issuer(&self, issuer: &Address) -> (r: bool)
        ensures
            r == self@.trusted.contains(issuer@),
    {
        self.trusted.contains_key(issuer)
    }

    /// The trusted issuers, in the order they were added.
    pub fn get_trusted_issuers(&self) -> (r: Vec<Address>)
        ensures
            r@ == self@.issuer_list,
    {
        copy_all(&self.issuer_list)
    }

    /// The engineers that `issuer` has credentialed, in order.
    pub fn get_engineers_by_issuer(&self, issuer: &Address) -> (r: Vec<Address>)
        ensures
            r@ == credentialed_by(self@, issuer@),
    {
        match self.issuer_engineers.get(issuer) {
            Some(list) => copy_all(list),
            None => Vec::new(),
        }
    }

    /// The admin address.
    pub fn get_admin(&self) -> (r: Result<Address, ContractError>)
        ensures
            match r {
                Ok(a) => self@.admin == Some(a@),
                Err(e) => self@.admin is None && e == ContractError::NotInitialized,
            },
    {
        match &self.admin {
            Some(a) => Ok(a.clone()),
            None => Err(ContractError::NotInitialized),
        }
    }

    /// Sets the admin, once.
    pub fn initialize_admin(&mut self, admin: Address) -> (r: Result<(), ContractError>)
        requires
            old(self).wf(),
        ensures
            final(self).wf(),
            match r {
                Ok(_) => old(self)@.admin is None && final(self)@ == (EngineerRegistryView {
                    admin: Some(admin@),
                    ..old(self)@
                }),
                Err(e) => old(self)@.admin is Some && e == ContractError::AdminAlreadyInitialized
                    && final(self)@ == old(self)@,
            },
    {
        if self.admin.is_some() {
            return Err(ContractError::AdminAlreadyInitialized);
        }
        self.admin = Some(admin);
        Ok(())
    }

    /// Checks that `admin` is the stored admin.
    fn check_admin(&self, admin: &Address) -> (r: Result<(), ContractError>)
        ensures
            match r {
                Ok(_) => self@.admin == Some(admin@),
                Err(e) => admin_error(self@, admin@) == Some(e),
            },
    {
        match &self.admin {
            Some(a) => {
                if *a == *admin {
                    Ok(())
                } else {
                    Err(ContractError::UnauthorizedAdmin)
                }
            },
            None => Err(ContractError::NotInitialized),
        }
    }

    /// Pauses the registry.
    pub fn pause(&mut self, admin: &Address) -> (r: Result<(), ContractError>)
        requires
            old(self).wf(),
        ensures
            final(self).wf(),
            match r {
                Ok(_) => admin_error(old(self)@, admin@) is None && final(self)@
                    == (EngineerRegistryView { paused: true, ..old(self)@ }),
                Err(e) => admin_error(old(self)@, admin@) == Some(e) && final(self)@ == old(self)@,
            },
    {
        self.check_admin(admin)?;
        self.paused = true;
        Ok(())
    }

    /// Lifts a pause.
    pub fn unpause(&mut self, admin: &Address) -> (r: Result<(), ContractError>)
        requires
            old(self).wf(),
        ensures
            final(self).wf(),
            match r {
                Ok(_) => admin_error(old(self)@, admin@) is None && final(self)@
                    == (EngineerRegistryView { paused: false, ..old(self)@ }),
                Err(e) => admin_error(old(self)@, admin@) == Some(e) && final(self)@ == old(self)@,
            },
    {
        self.check_admin(admin)?;
        self.paused = false;
        Ok(())
    }

    /// Checks, for a change that only the admin may make, that the registry is not paused
    /// and that `admin` is the stored admin.
    fn check_unpaused_admin(&self, admin: &Address) -> (r: Result<(), ContractError>)
        ensures
            match r {
                Ok(_) => unpaused_admin_error(self@, admin@) is None,
                Err(e) => unpaused_admin_error(self@, admin@) == Some(e),
            },
    {
        if self.paused {
            return Err(ContractError::Paused);
        }
        self.check_admin(admin)
    }

    /// Records an upgrade of the contract code; the deployment of the new code is the
    /// host's.
    pub fn upgrade(&mut self, admin: &Address, new_wasm_hash: [u8; 32]) -> (r: Result<
        (),
        ContractError,
    >)
        requires
            old(self).wf(),
        ensures
            final(self).wf(),
            final(self)@ == old(self)@,
            match r {
                Ok(_) => unpaused_admin_error(old(self)@, admin@) is None,
                Err(e) => unpaused_admin_error(old(self)@, admin@) == Some(e),
            },
    {
        self.check_unpaused_admin(admin)
    }

    /// Adds `issuer` to the trusted issuers.
    pub fn add_trusted_issuer(&mut self, admin: &Address, issuer: Address) -> (r: Result<
        (),
        ContractError,
    >)
        requires
            old(self).wf(),
        ensures
            final(self).wf(),
            match r {
                Ok(_) => unpaused_admin_error(old(self)@, admin@) is None && final(self)@
                    == add_issuer_effect(old(self)@, *admin, issuer),
                Err(e) => unpaused_admin_error(old(self)@, admin@) == Some(e) && final(self)@
                    == old(self)@,
            },
    {
        self.check_unpaused_admin(admin)?;
        self.trusted.insert(issuer.clone(), ());
        if !list_holds(&self.issuer_list, &issuer) {
            self.issuer_list.push(issuer.clone());
        }
        self.events.push(EngineerEvent::IssuerAdded { admin: admin.clone(), issuer });
        proof {
            let v = old(self)@;
            let w = self@;
            assert(w.trusted =~= v.trusted.insert(issuer@));
            assert(distinct_addresses(w.issuer_list)) by {
                if !holds_address(v.issuer_list, issuer@) {
                    let s = w.issuer_list;
                    assert forall|i: int, j: int|
                        0 <= i < s.len() && 0 <= j < s.len() && i != j implies s[i]@ != s[j]@ by {
                        if i < v.issuer_list.len() && j < v.issuer_list.len() {
                            assert(v.issuer_list[i] == s[i] && v.issuer_list[j] == s[j]);
                        } else if i < v.issuer_list.len() {
                            assert(v.issuer_list[i] == s[i]);
                        } else {
                            assert(v.issuer_list[j] == s[j]);
                        }
                    }
                }
            }
            assert forall|a: Seq<char>| #[trigger]
                w.trusted.contains(a) <==> holds_address(w.issuer_list, a) by {
                if holds_address(v.issuer_list, a) && !holds_address(v.issuer_list, issuer@) {
                    let i = choose|i: int| 0 <= i < v.issuer_list.len() && #[trigger] v.issuer_list[i]@ == a;
                    assert(w.issuer_list[i]@ == a);
                }
                if a == issuer@ && !holds_address(v.issuer_list, issuer@) {
                    assert(w.issuer_list[v.issuer_list.len() as int]@ == a);
                }
                if holds_address(w.issuer_list, a) && !holds_address(v.issuer_list, issuer@) {
                    let i = choose|i: int| 0 <= i < w.issuer_list.len() && #[trigger] w.issuer_list[i]@ == a;
                    if i < v.issuer_list.len() {
                        assert(v.issuer_list[i]@ == a);
                    }
                }
            }
        }
        Ok(())
    }

    /// Takes `issuer` off the trusted issuers. Credentials it has issued stay as they are.
    pub fn remove_trusted_issuer(&mut self, admin: &Address, issuer: &Address) -> (r: Result<
        (),
        ContractError,
    >)
        requires
            old(self).wf(),
        ensures
            final(self).wf(),
            match r {
                Ok(_) => unpaused_admin_error(old(self)@, admin@) is None && final(self)@
                    == remove_issuer_effect(old(self)@, *admin, *issuer),
                Err(e) => unpaused_admin_error(old(self)@, admin@) == Some(e) && final(self)@
                    == old(self)@,
            },
    {
        self.check_unpaused_admin(admin)?;
        self.trusted.remove(issuer);
        let remaining = copy_without_address(&self.issuer_list, issuer);
        self.issuer_list = remaining;
        self.events.push(EngineerEvent::IssuerRemoved { admin: admin.clone(), issuer: issuer.clone() });
        proof {
            let v = old(self)@;
            let w = self@;
            assert(w.trusted =~= v.trusted.remove(issuer@));
            lemma_without_address(v.issuer_list, issuer@);
            assert forall|a: Seq<char>| #[trigger]
                w.trusted.contains(a) <==> holds_address(w.issuer_list, a) by {
                assert(v.trusted.contains(a) <==> holds_address(v.issuer_list, a));
            }
        }
        Ok(())
    }

    /// `issuer` credentials `engineer` at ledger time `now` for `validity_period` seconds.
    pub fn register_engineer(
        &mut self,
        engineer: Address,
        credential_hash: [u8; 32],
        issuer: Address,
        validity_period: u64,
        now: u64,
    ) -> (r: Result<(), ContractError>)
        requires
            old(self).wf(),
            register_engineer_error(old(self)@, credential_hash@, issuer@) is None ==> now
                + validity_period <= u64::MAX,
        ensures
            final(self).wf(),
            match r {
                Ok(_) => register_engineer_error(old(self)@, credential_hash@, issuer@) is None
                    && final(self)@ == register_engineer_effect(
                    old(self)@,
                    engineer,
                    credential_hash,
                    issuer,
                    validity_period,
                    now,
                ),
                Err(e) => register_engineer_error(old(self)@, credential_hash@, issuer@) == Some(
                    e,
                ) && final(self)@ == old(self)@,
            },
    {
        if self.paused {
            return Err(ContractError::Paused);
        }
        if !self.trusted.contains_key(&issuer) {
            return Err(ContractError::UntrustedIssuer);
        }
        if is_zero_hash(&credential_hash) {
            return Err(ContractError::InvalidCredentialHash);
        }
        let record = Engineer {
            address: engineer.clone(),
            credential_hash,
            issuer: issuer.clone(),
            active: true,
            issued_at: now,
            expires_at: now + validity_period,
        };
        self.engineers.insert(engineer.clone(), record);
        let mut list = match self.issuer_engineers.remove(&issuer) {
            Some(list) => list,
            None => Vec::new(),
        };
        list.push(engineer.clone());
        self.issuer_engineers.insert(issuer.clone(), list);
        self.events.push(
            EngineerEvent::EngineerRegistered {
                engineer,
                issuer,
                credential_hash,
                timestamp: now,
            },
        );
        proof {
            let v = old(self)@;
            let w = self@;
            assert(w.issuer_engineers =~= v.issuer_engineers.insert(
                issuer@,
                credentialed_by(v, issuer@).push(engineer),
            ));
        }
        Ok(())
    }

    /// Revokes the credential of `engineer`, at ledger time `now`.
    pub fn revoke_credential(&mut self, engineer: &Address, now: u64) -> (r: Result<
        (),
        ContractError,
    >)
        requires
            old(self).wf(),
        ensures
            final(self).wf(),
            match r {
                Ok(_) => revoke_error(old(self)@, engineer@) is None && final(self)@
                    == revoke_effect(old(self)@, engineer@, now),
                Err(e) => revoke_error(old(self)@, engineer@) == Some(e) && final(self)@ == old(self)@,
            },
    {
        if self.paused {
            return Err(ContractError::Paused);
        }
        let record = match self.engineers.get(engineer) {
            Some(record) => record.duplicate(),
            None => {
                return Err(ContractError::EngineerNotFound);
            },
        };
        if !record.active {
            return Err(ContractError::CredentialAlreadyRevoked);
        }
        let event = EngineerEvent::CredentialRevoked {
            engineer: record.address.clone(),
            issuer: record.issuer.clone(),
            timestamp: now,
        };
        self.engineers.insert(engineer.clone(), Engineer { active: false, ..record });
        self.events.push(event);
        Ok(())
    }
}

} // verus!
