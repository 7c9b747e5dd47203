use vstd::prelude::*;
use crate::str_map::StrMap;
use crate::text::{clone_strings, contains_seq, str_contains, str_eq, strs_view};

verus! {

/// The private key to use for an SSH gateway; without a pass phrase the user
/// is asked for it.
pub struct SshPrivateKeySettingsModel {
    pub cert_path: String,
    pub cert_pass_prase: Option<String>,
}

/// The private key to use for an SSH gateway.
pub struct SshCredentialsSettingsModel {
    pub cert_path: String,
    pub cert_pass_prase: String,
}

/// An agent to ask for statistics.
pub struct VmSettingsModel {
    pub url: String,
}

/// The agents of every environment, the private keys per SSH gateway,
/// whether to ask for the pass phrase, and who may see which environments:
/// the group of each user, and the environments of each group.
pub struct SettingsModel {
    pub envs: StrMap<Vec<VmSettingsModel>>,
    pub ssh_private_keys: Option<StrMap<SshPrivateKeySettingsModel>>,
    pub request_pass_key: Option<bool>,
    pub users: Option<StrMap<String>>,
    pub user_groups: Option<StrMap<Vec<String>>>,
}

/// A group's list of environments lets its members see `env`: the list names it.
pub open spec fn group_allows(listed: Seq<Seq<char>>, env: Seq<char>) -> bool {
    listed.contains(env)
}

/// The environments, in order, that `user` may see. Without a user list every
/// environment is visible. With one, a user who is not listed (or not named)
/// sees none; a user mapped to `"*"` sees every environment, whatever the
/// groups say; a user whose group is in the group list sees the environments
/// that the group lists; a user whose group is not there sees none.
pub open spec fn visible_envs(
    envs: Seq<Seq<char>>,
    users: Option<Map<Seq<char>, Seq<char>>>,
    groups: Option<Map<Seq<char>, Seq<Seq<char>>>>,
    user: Option<Seq<char>>,
) -> Seq<Seq<char>> {
    match users {
        None => envs,
        Some(us) => match user {
            None => Seq::empty(),
            Some(u) => if !us.contains_key(u) {
                Seq::empty()
            } else if us[u] == seq!['*'] {
                envs
            } else {
                match groups {
                    Some(gs) => if gs.contains_key(us[u]) {
                        envs.filter(|e: Seq<char>| group_allows(gs[us[u]], e))
                    } else {
                        Seq::empty()
                    },
                    None => Seq::empty(),
                }
            },
        },
    }
}

/// A user listed with a group that the group list has sees exactly the
/// environments whose names the group's list holds, in environment order; an
/// environment that the list does not name is never visible to the user.
pub proof fn lemma_group_sees_listed_envs(
    envs: Seq<Seq<char>>,
    users: Map<Seq<char>, Seq<char>>,
    groups: Map<Seq<char>, Seq<Seq<char>>>,
    user: Seq<char>,
    env: Seq<char>,
)
    requires
        users.contains_key(user),
        users[user] != seq!['*'],
        groups.contains_key(users[user]),
    ensures
        visible_envs(envs, Some(users), Some(groups), Some(user)).contains(env) <==> (envs.contains(env)
            && groups[users[user]].contains(env)),
        visible_envs(envs, Some(users), Some(groups), Some(user)).len() <= envs.len(),
{
    let listed = groups[users[user]];
    let pred = |e: Seq<char>| group_allows(listed, e);
    let v = visible_envs(envs, Some(users), Some(groups), Some(user));
    assert(v == envs.filter(pred));
    envs.lemma_filter_len(pred);
    if v.contains(env) {
        let k = choose|k: int| 0 <= k < v.len() && v[k] == env;
        envs.lemma_filter_pred(pred, k);
        envs.lemma_filter_contains_rev(pred, env);
    }
    if envs.contains(env) && listed.contains(env) {
        let i = choose|i: int| 0 <= i < envs.len() && envs[i] == env;
        envs.lemma_filter_contains(pred, i);
    }
}

/// Whether a group's list of environments names `env`.
fn group_allows_exec(listed: &Vec<String>, env: &str) -> (r: bool)
    ensures
        r == group_allows(strs_view(listed@), env@),
{
    let ghost l = strs_view(listed@);
    let mut i: usize = 0;
    while i < listed.len()
        invariant
            l == strs_view(listed@),
            i <= listed@.len(),
            forall|j: int| 0 <= j < i ==> l[j] != env@,
        decreases listed@.len() - i,
    {
        assert(l[i as int] == listed@[i as int]@);
        if str_eq(listed[i].as_str(), env) {
            assert(l.contains(env@));
            return true;
        }
        i = i + 1;
    }
    false
}

/// The URLs of a list of agents.
pub open spec fn vm_urls(vms: Seq<VmSettingsModel>) -> Seq<Seq<char>> {
    vms.map_values(|vm: VmSettingsModel| vm.url@)
}

/// Why no agent URL can be found.
#[derive(Debug, PartialEq, Eq, Structural)]
pub enum UrlLookupError {
    EnvNotFound,
    UrlNotFound,
}

/// The first URL among `urls` that contains `part`.
pub open spec fn first_url_containing(urls: Seq<Seq<char>>, part: Seq<char>) -> Option<Seq<char>>
    decreases urls.len(),
{
    if urls.len() == 0 {
        None
    } else if contains_seq(urls[0], part) {
        Some(urls[0])
    } else {
        first_url_containing(urls.drop_first(), part)
    }
}

impl SettingsModel {
    pub open spec fn wf(&self) -> bool {
        &&& self.envs.wf()
        &&& self.ssh_private_keys matches Some(m) ==> m.wf()
        &&& self.users matches Some(m) ==> m.wf()
        &&& self.user_groups matches Some(m) ==> m.wf()
    }

    /// The group of each user.
    pub open spec fn users_view(&self) -> Option<Map<Seq<char>, Seq<char>>> {
        match self.users {
            Some(m) => Some(m@.map_values(|g: String| g@)),
            None => None,
        }
    }

    /// The environments of each group.
    pub open spec fn groups_view(&self) -> Option<Map<Seq<char>, Seq<Seq<char>>>> {
        match self.user_groups {
            Some(m) => Some(m@.map_values(|v: Vec<String>| strs_view(v@))),
            None => None,
        }
    }

    /// Whether the user must be asked for the SSH pass phrase: asking is
    /// configured, and no pass phrase was entered yet (once entered it is kept
    /// for the life of the process).
    pub fn must_prompt_pass_phrase(&self, entered: bool) -> (r: bool)
        ensures
            r == (self.request_pass_key == Some(true) && !entered),
    {
        match self.request_pass_key {
            Some(ask) => ask && !entered,
            None => false,
        }
    }

    /// The names of the environments that `user` may see, in order.
    pub fn get_envs_for_user(&self, user: Option<&str>) -> (r: Vec<String>)
        requires
            self.wf(),
        ensures
            strs_view(r@) == visible_envs(
                self.envs.key_seq(),
                self.users_view(),
                self.groups_view(),
                match user {
                    Some(u) => Some(u@),
                    None => None,
                },
            ),
            forall|e: Seq<char>|
                #![trigger strs_view(r@).contains(e)]
                self.users is Some && user is Some && self.users_view()->0.contains_key(user->0@)
                    && self.users_view()->0[user->0@] != seq!['*'] && self.user_groups is Some
                    && self.groups_view()->0.contains_key(self.users_view()->0[user->0@]) ==> (strs_view(
                    r@,
                ).contains(e) <==> (self.envs.key_seq().contains(e) && self.groups_view()->0[self.users_view()->0[user->0@]].contains(e))),
    {
        let users = match &self.users {
            None => {
                return clone_strings(&self.envs.keys);
            },
            Some(us) => us,
        };
        let u = match user {
            None => {
                return Vec::new();
            },
            Some(u) => u,
        };
        let group = match users.get(u) {
            None => {
                return Vec::new();
            },
            Some(g) => g,
        };
        let any_group = "*";
        proof {
            reveal_strlit("*");
            assert(any_group@ =~= seq!['*']);
        }
        if str_eq(group.as_str(), any_group) {
            return clone_strings(&self.envs.keys);
        }
        let groups = match &self.user_groups {
            None => {
                return Vec::new();
            },
            Some(gs) => gs,
        };
        let listed = match groups.get(group.as_str()) {
            None => {
                return Vec::new();
            },
            Some(l) => l,
        };
        let ghost keys = self.envs.key_seq();
        let ghost gl = strs_view(listed@);
        let ghost pred = |e: Seq<char>| group_allows(gl, e);
        let mut result: Vec<String> = Vec::new();
        let mut i: usize = 0;
        assert(keys.take(0) =~= Seq::<Seq<char>>::empty());
        assert(strs_view(result@) =~= keys.take(0).filter(pred)) by {
            reveal(Seq::filter);
        }
        while i < self.envs.len()
            invariant
                self.wf(),
                keys == self.envs.key_seq(),
                gl == strs_view(listed@),
                pred == (|e: Seq<char>| group_allows(gl, e)),
                i <= self.envs.spec_len(),
                strs_view(result@) == keys.take(i as int).filter(pred),
            decreases self.envs.spec_len() - i,
        {
            let key = self.envs.key_at(i);
            let ghost before = strs_view(result@);
            proof {
                assert(keys.take(i + 1) =~= keys.take(i as int).push(keys[i as int]));
                keys.take(i as int).lemma_filter_push(keys[i as int], pred);
            }
            if group_allows_exec(listed, key.as_str()) {
                result.push(key.clone());
                assert(strs_view(result@) =~= before.push(key@));
            }
            i = i + 1;
        }
        assert(keys.take(keys.len() as int) =~= keys);
        proof {
            let gs = self.groups_view()->0;
            let us = self.users_view()->0;
            assert(us[u@] == group@);
            assert(gs[group@] == gl);
            assert(keys.filter(pred) =~= keys.filter(|e: Seq<char>| group_allows(gs[us[u@]], e)));
            assert forall|e: Seq<char>| #![trigger strs_view(result@).contains(e)]
                strs_view(result@).contains(e) <==> (keys.contains(e) && gs[us[u@]].contains(e)) by {
                lemma_group_sees_listed_envs(keys, us, gs, u@, e);
            }
        }
        result
    }

    /// Each environment with the URLs of its agents, in environment name order.
    pub fn get_urls(&self) -> (r: Vec<(String, Vec<String>)>)
        requires
            self.wf(),
        ensures
            r@.len() == self.envs.spec_len(),
            forall|i: int|
                0 <= i < r@.len() ==> (#[trigger] r@[i]).0@ == self.envs.key_seq()[i] && strs_view(
                    r@[i].1@,
                ) == vm_urls(self.envs.val_seq()[i]@),
    {
        let mut result: Vec<(String, Vec<String>)> = Vec::new();
        let mut i: usize = 0;
        while i < self.envs.len()
            invariant
                self.wf(),
                i <= self.envs.spec_len(),
                result@.len() == i,
                forall|j: int|
                    0 <= j < i ==> (#[trigger] result@[j]).0@ == self.envs.key_seq()[j] && strs_view(
                        result@[j].1@,
                    ) == vm_urls(self.envs.val_seq()[j]@),
            decreases self.envs.spec_len() - i,
        {
            let env = self.envs.key_at(i);
            let env_settings = self.envs.value_at(i);
            let mut fl_urls: Vec<String> = Vec::new();
            let mut k: usize = 0;
            while k < env_settings.len()
                invariant
                    k <= env_settings@.len(),
                    strs_view(fl_urls@) == vm_urls(env_settings@).take(k as int),
                decreases env_settings@.len() - k,
            {
                let ghost before = fl_urls@;
                fl_urls.push(env_settings[k].url.clone());
                assert(strs_view(fl_urls@) =~= strs_view(before).push(env_settings@[k as int].url@));
                assert(vm_urls(env_settings@).take(k + 1) =~= vm_urls(env_settings@).take(k as int).push(
                    env_settings@[k as int].url@,
                ));
                k = k + 1;
            }
            assert(vm_urls(env_settings@).take(env_settings@.len() as int) =~= vm_urls(env_settings@));
            result.push((env.clone(), fl_urls));
            i = i + 1;
        }
        result
    }

    /// The names of the environments, in order.
    pub fn get_envs(&self) -> (r: Vec<String>)
        requires
            self.wf(),
        ensures
            strs_view(r@) == self.envs.key_seq(),
    {
        clone_strings(&self.envs.keys)
    }

    /// The first agent URL of environment `env` that contains `url`, for a
    /// known environment that has one (`try_find_vm_url` tells the others).
    pub fn find_vm_url(&self, env: &str, url: &str) -> (r: String)
        requires
            self.wf(),
            self.envs@.contains_key(env@),
            first_url_containing(vm_urls(self.envs@[env@]@), url@) is Some,
        ensures
            first_url_containing(vm_urls(self.envs@[env@]@), url@) == Some(r@),
    {
        match self.try_find_vm_url(env, url) {
            Ok(r) => r,
            Err(_) => String::new(),
        }
    }

    /// The first agent URL of environment `env` that contains `url`, or which
    /// of the two is missing: the environment, or an agent URL containing `url`.
    pub fn try_find_vm_url(&self, env: &str, url: &str) -> (r: Result<String, UrlLookupError>)
        requires
            self.wf(),
        ensures
            !self.envs@.contains_key(env@) ==> r == Err::<String, UrlLookupError>(UrlLookupError::EnvNotFound),
            self.envs@.contains_key(env@) ==> match first_url_containing(vm_urls(self.envs@[env@]@), url@) {
                Some(u) => r is Ok && r->Ok_0@ == u,
                None => r == Err::<String, UrlLookupError>(UrlLookupError::UrlNotFound),
            },
    {
        let env_settings = match self.envs.get(env) {
            Some(e) => e,
            None => {
                return Err(UrlLookupError::EnvNotFound);
            },
        };
        let ghost urls = vm_urls(env_settings@);
        let mut i: usize = 0;
        assert(urls.subrange(0, urls.len() as int) =~= urls);
        while i < env_settings.len()
            invariant
                self.envs@.contains_key(env@),
                *env_settings == self.envs@[env@],
                i <= env_settings@.len(),
                urls == vm_urls(env_settings@),
                first_url_containing(urls, url@) == first_url_containing(urls.subrange(i as int, urls.len() as int), url@),
            decreases env_settings@.len() - i,
        {
            let ghost rest = urls.subrange(i as int, urls.len() as int);
            assert(rest[0] == env_settings@[i as int].url@);
            assert(rest.drop_first() =~= urls.subrange(i + 1, urls.len() as int));
            if str_contains(env_settings[i].url.as_str(), url) {
                return Ok(env_settings[i].url.clone());
            }
            i = i + 1;
        }
        Err(UrlLookupError::UrlNotFound)
    }
}

} // verus!
