//! Device authorisation and password checks.
use vstd::prelude::*;
use vstd::string::StringSliceAdditionalSpecFns;
use crate::config::Config;
use crate::digest::{sha256_hex, sha256_of};
use crate::text::{lower_hex, str_equal};

verus! {

pub struct AuthManager {
    config: Config,
}

/// The list of allowed device ids, as character sequences.
pub open spec fn id_list(v: Seq<String>) -> Seq<Seq<char>> {
    v.map_values(|s: String| s@)
}

/// Whether `id` is in the list `v`.
pub fn contains_id(v: &Vec<String>, id: &str) -> (r: bool)
    ensures
        r == id_list(v@).contains(id@),
{
    let mut i: usize = 0;
    while i < v.len()
        invariant
            i <= v@.len(),
            forall|k: int| 0 <= k < i ==> v@[k]@ != id@,
        decreases v@.len() - i,
    {
        if str_equal(v[i].as_str(), id) {
            assert(id_list(v@)[i as int] == id@);
            return true;
        }
        i = i + 1;
    }
    proof {
        if id_list(v@).contains(id@) {
            let k = choose|k: int| 0 <= k < id_list(v@).len() && id_list(v@)[k] == id@;
            assert(v@[k]@ == id@);
        }
    }
    false
}

/// The lower-case hex SHA-256 of a password's UTF-8, the form in which a
/// password is stored and compared.
pub open spec fn password_hash_of(password: Seq<u8>) -> Seq<char> {
    lower_hex(sha256_of(password))
}

/// Two configurations that differ at most in their allow-lists.
pub open spec fn only_allow_list_differs(a: Config, b: Config) -> bool {
    &&& a.instance == b.instance
    &&& a.network == b.network
    &&& a.transfer == b.transfer
    &&& a.security.require_auth == b.security.require_auth
    &&& a.security.password == b.security.password
    &&& a.security.enable_tls == b.security.enable_tls
}

impl AuthManager {
    pub closed spec fn require_auth(&self) -> bool {
        self.config.security.require_auth
    }

    pub closed spec fn stored_password(&self) -> Seq<char> {
        self.config.security.password@
    }

    pub closed spec fn allowed(&self) -> Seq<Seq<char>> {
        id_list(self.config.security.allowed_devices@)
    }

    pub closed spec fn config_view(&self) -> Config {
        self.config
    }

    pub fn new(config: Config) -> (m: AuthManager)
        ensures
            m.config_view() == config,
            m.require_auth() == config.security.require_auth,
            m.stored_password() == config.security.password@,
            m.allowed() == id_list(config.security.allowed_devices@),
    {
        AuthManager { config }
    }

    /// The configuration, with the allowed list as it now stands.
    pub fn config(&self) -> (c: &Config)
        ensures
            *c == self.config_view(),
            id_list(c.security.allowed_devices@) == self.allowed(),
    {
        &self.config
    }

    /// A device may connect when authorisation is off, when no allow-list
    /// is set, or when it is on the list.
    pub fn is_device_allowed(&self, device_id: &str) -> (ok: bool)
        ensures
            ok == (!self.require_auth() || self.allowed().len() == 0 || self.allowed().contains(
                device_id@,
            )),
    {
        if !self.config.security.require_auth {
            return true;
        }
        if self.config.security.allowed_devices.len() == 0 {
            return true;
        }
        contains_id(&self.config.security.allowed_devices, device_id)
    }

    /// A password is accepted when none is set, or when its hash equals the
    /// stored one.
    pub fn verify_password(&self, password: &str) -> (ok: bool)
        ensures
            ok == (self.stored_password().len() == 0 || password_hash_of(password.spec_bytes())
                == self.stored_password()),
    {
        if self.config.security.password.as_str().is_empty() {
            return true;
        }
        let hash = Self::hash_password(password);
        str_equal(hash.as_str(), self.config.security.password.as_str())
    }

    /// The stored form of a password: 64 lower-case hex characters.
    pub fn hash_password(password: &str) -> (h: String)
        ensures
            h@ == password_hash_of(password.spec_bytes()),
            h@.len() == 64,
    {
        sha256_hex(password.as_bytes())
    }

    /// Adds a device to the allow-list unless it is already there.
    pub fn add_allowed_device(&mut self, device_id: String)
        ensures
            final(self).allowed() == (if old(self).allowed().contains(device_id@) {
                old(self).allowed()
            } else {
                old(self).allowed().push(device_id@)
            }),
            final(self).require_auth() == old(self).require_auth(),
            final(self).stored_password() == old(self).stored_password(),
            only_allow_list_differs(old(self).config_view(), final(self).config_view()),
    {
        if !contains_id(&self.config.security.allowed_devices, device_id.as_str()) {
            let ghost before = self.config.security.allowed_devices@;
            self.config.security.allowed_devices.push(device_id);
            assert(id_list(self.config.security.allowed_devices@) =~= id_list(before).push(
                device_id@,
            ));
        }
    }

    /// Removes every occurrence of a device from the allow-list.
    pub fn remove_allowed_device(&mut self, device_id: &str)
        ensures
            final(self).allowed() == old(self).allowed().filter(|x: Seq<char>| x != device_id@),
            final(self).require_auth() == old(self).require_auth(),
            final(self).stored_password() == old(self).stored_password(),
            only_allow_list_differs(old(self).config_view(), final(self).config_view()),
    {
        let ghost before = id_list(self.config.security.allowed_devices@);
        let mut kept: Vec<String> = Vec::new();
        let mut i: usize = 0;
        let n = self.config.security.allowed_devices.len();
        while i < n
            invariant
                n == self.config.security.allowed_devices@.len(),
                before == id_list(self.config.security.allowed_devices@),
                i <= n,
                id_list(kept@) == before.take(i as int).filter(|x: Seq<char>| x != device_id@),
            decreases n - i,
        {
            let same = str_equal(self.config.security.allowed_devices[i].as_str(), device_id);
            proof {
                reveal(Seq::filter);
                let s = before.take(i + 1);
                assert(s.drop_last() =~= before.take(i as int));
                assert(s.last() == before[i as int]);
                assert(before[i as int] == self.config.security.allowed_devices@[i as int]@);
            }
            if !same {
                let ghost k0 = kept@;
                kept.push(self.config.security.allowed_devices[i].clone());
                assert(id_list(kept@) =~= id_list(k0).push(before[i as int]));
            }
            i = i + 1;
        }
        assert(before.take(n as int) =~= before);
        self.config.security.allowed_devices = kept;
    }

    pub fn list_allowed_devices(&self) -> (v: &[String])
        ensures
            id_list(v@) == self.allowed(),
    {
        self.config.security.allowed_devices.as_slice()
    }
}

/// Once a device has been added, it is allowed in.
pub proof fn law_added_device_is_allowed(before: AuthManager, after: AuthManager, id: Seq<char>)
    requires
        after.allowed() == (if before.allowed().contains(id) {
            before.allowed()
        } else {
            before.allowed().push(id)
        }),
        after.require_auth() == before.require_auth(),
    ensures
        after.allowed().contains(id),
{
    if !before.allowed().contains(id) {
        assert(after.allowed().last() == id);
        assert(after.allowed()[after.allowed().len() - 1] == id);
    }
}

/// Once a device has been removed, it is no longer on the allow-list.
pub proof fn law_removed_device_is_gone(before: AuthManager, after: AuthManager, id: Seq<char>)
    requires
        after.allowed() == before.allowed().filter(|x: Seq<char>| x != id),
    ensures
        !after.allowed().contains(id),
{
    broadcast use vstd::seq_lib::group_filter_ensures;

    if after.allowed().contains(id) {
        let k = choose|k: int| 0 <= k < after.allowed().len() && after.allowed()[k] == id;
        assert((|x: Seq<char>| x != id)(after.allowed()[k]));
    }
}

} // verus!
