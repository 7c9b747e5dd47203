use vstd::prelude::*;
use crate::str_map::StrMap;
use crate::ssh_settings::{SshCredentialsPlan, SshPlanView, SshUrlError, parse_url, try_parse_url, url_plan, opt_plan_view};

verus! {

/// The private key to use for an SSH gateway.
pub struct SshCredentialsSettingsModel {
    pub cert_path: String,
    pub cert_pass_prase: String,
}

/// An agent to ask for statistics.
pub struct VmSettingsModel {
    pub url: String,
}

/// The credentials as a map of contents.
pub open spec fn credentials_view(c: Option<&StrMap<SshCredentialsSettingsModel>>) -> Option<
    Map<Seq<char>, SshCredentialsSettingsModel>,
> {
    match c {
        Some(m) => Some(m@),
        None => None,
    }
}

impl VmSettingsModel {
    /// How to reach this agent, when its URL can be used (see `try_get_url`).
    pub fn get_url(&self, ssh_credentials: Option<&StrMap<SshCredentialsSettingsModel>>) -> (r: (
        Option<SshCredentialsPlan>,
        String,
    ))
        requires
            ssh_credentials matches Some(m) ==> m.wf(),
            url_plan(self.url@, credentials_view(ssh_credentials)) is Ok,
        ensures
            url_plan(self.url@, credentials_view(ssh_credentials)) == Ok::<
                (Option<SshPlanView>, Seq<char>),
                SshUrlError,
            >((opt_plan_view(r.0), r.1@)),
    {
        parse_url(self.url.as_str(), ssh_credentials)
    }

    /// How to reach this agent, or why its URL cannot be used.
    pub fn try_get_url(&self, ssh_credentials: Option<&StrMap<SshCredentialsSettingsModel>>) -> (r: Result<
        (Option<SshCredentialsPlan>, String),
        SshUrlError,
    >)
        requires
            ssh_credentials matches Some(m) ==> m.wf(),
        ensures
            match r {
                Ok((plan, target)) => url_plan(self.url@, credentials_view(ssh_credentials)) == Ok::<
                    (Option<SshPlanView>, Seq<char>),
                    SshUrlError,
                >((
                    match plan {
                        Some(p) => Some(p@),
                        None => None,
                    },
                    target@,
                )),
                Err(e) => url_plan(self.url@, credentials_view(ssh_credentials)) == Err::<
                    (Option<SshPlanView>, Seq<char>),
                    SshUrlError,
                >(e),
            },
    {
        try_parse_url(self.url.as_str(), ssh_credentials)
    }
}

/// The agents of every environment and the private keys per SSH gateway.
pub struct SettingsModel {
    pub envs: StrMap<Vec<VmSettingsModel>>,
    pub ssh_credentials: Option<StrMap<SshCredentialsSettingsModel>>,
}

/// A plan, as its contents.
pub open spec fn plan_view(p: Option<SshCredentialsPlan>) -> Option<SshPlanView> {
    match p {
        Some(p) => Some(p@),
        None => None,
    }
}

/// The agent's URL and how to reach it, for each agent in order; the error of
/// the first agent whose URL cannot be used, if any.
pub open spec fn vm_plans(
    vms: Seq<VmSettingsModel>,
    credentials: Option<Map<Seq<char>, SshCredentialsSettingsModel>>,
) -> Result<Seq<(Seq<char>, Option<SshPlanView>)>, SshUrlError>
    decreases vms.len(),
{
    if vms.len() == 0 {
        Ok(Seq::empty())
    } else {
        match vm_plans(vms.drop_last(), credentials) {
            Err(e) => Err(e),
            Ok(done) => match url_plan(vms.last().url@, credentials) {
                Err(e) => Err(e),
                Ok((plan, target)) => Ok(done.push((target, plan))),
            },
        }
    }
}

/// The plans of every environment in name order; the first error, if any.
pub open spec fn env_plans(
    envs: Seq<Vec<VmSettingsModel>>,
    credentials: Option<Map<Seq<char>, SshCredentialsSettingsModel>>,
) -> Result<Seq<Seq<(Seq<char>, Option<SshPlanView>)>>, SshUrlError>
    decreases envs.len(),
{
    if envs.len() == 0 {
        Ok(Seq::empty())
    } else {
        match env_plans(envs.drop_last(), credentials) {
            Err(e) => Err(e),
            Ok(done) => match vm_plans(envs.last()@, credentials) {
                Err(e) => Err(e),
                Ok(p) => Ok(done.push(p)),
            },
        }
    }
}

/// A list of URLs with their plans, as contents.
pub open spec fn targets_view(v: Vec<(String, Option<SshCredentialsPlan>)>) -> Seq<(Seq<char>, Option<SshPlanView>)> {
    v@.map_values(|x: (String, Option<SshCredentialsPlan>)| (x.0@, plan_view(x.1)))
}

impl SettingsModel {
    pub open spec fn wf(&self) -> bool {
        &&& self.envs.wf()
        &&& self.ssh_credentials matches Some(m) ==> m.wf()
    }

    pub open spec fn credentials(&self) -> Option<Map<Seq<char>, SshCredentialsSettingsModel>> {
        match self.ssh_credentials {
            Some(m) => Some(m@),
            None => None,
        }
    }

    /// The URL of every agent of one environment and how to reach it.
    fn env_targets(&self, vms: &Vec<VmSettingsModel>) -> (r: Result<Vec<(String, Option<SshCredentialsPlan>)>, SshUrlError>)
        requires
            self.wf(),
        ensures
            match r {
                Ok(v) => vm_plans(vms@, self.credentials()) == Ok::<
                    Seq<(Seq<char>, Option<SshPlanView>)>,
                    SshUrlError,
                >(targets_view(v)),
                Err(e) => vm_plans(vms@, self.credentials()) == Err::<
                    Seq<(Seq<char>, Option<SshPlanView>)>,
                    SshUrlError,
                >(e),
            },
    {
        let mut fl_urls: Vec<(String, Option<SshCredentialsPlan>)> = Vec::with_capacity(vms.len());
        let mut i: usize = 0;
        assert(vms@.take(0) =~= Seq::<VmSettingsModel>::empty());
        assert(targets_view(fl_urls) =~= Seq::empty());
        while i < vms.len()
            invariant
                self.wf(),
                i <= vms@.len(),
                vm_plans(vms@.take(i as int), self.credentials()) == Ok::<
                    Seq<(Seq<char>, Option<SshPlanView>)>,
                    SshUrlError,
                >(targets_view(fl_urls)),
            decreases vms@.len() - i,
        {
            assert(vms@.take(i + 1).drop_last() =~= vms@.take(i as int));
            assert(vms@.take(i + 1).last() == vms@[i as int]);
            let ghost before = fl_urls@;
            match vms[i].try_get_url(self.ssh_credentials.as_ref()) {
                Ok((plan, url)) => {
                    let ghost item = (url@, plan_view(plan));
                    fl_urls.push((url, plan));
                    assert(targets_view(fl_urls) =~= targets_view_seq(before).push(item));
                },
                Err(e) => {
                    proof {
                        lemma_vm_plans_err(vms@, self.credentials(), i + 1);
                    }
                    return Err(e);
                },
            }
            i = i + 1;
        }
        assert(vms@.take(vms@.len() as int) =~= vms@);
        Ok(fl_urls)
    }

    /// The URL of every agent of every environment, by environment name, with
    /// how to reach it, when every URL can be used (see `try_get_fl_urls`).
    pub fn get_fl_urls(&self) -> (r: StrMap<Vec<(String, Option<SshCredentialsPlan>)>>)
        requires
            self.wf(),
            env_plans(self.envs.val_seq(), self.credentials()) is Ok,
        ensures
            r.wf(),
            r.key_seq() == self.envs.key_seq(),
            env_plans(self.envs.val_seq(), self.credentials()) == Ok::<
                Seq<Seq<(Seq<char>, Option<SshPlanView>)>>,
                SshUrlError,
            >(r.val_seq().map_values(|v: Vec<(String, Option<SshCredentialsPlan>)>| targets_view(v))),
    {
        match self.try_get_fl_urls() {
            Ok(m) => m,
            Err(_) => StrMap::new(),
        }
    }

    /// The URL of every agent of every environment, by environment name, with
    /// how to reach it; the error of the first URL that cannot be used.
    pub fn try_get_fl_urls(&self) -> (r: Result<StrMap<Vec<(String, Option<SshCredentialsPlan>)>>, SshUrlError>)
        requires
            self.wf(),
        ensures
            match r {
                Ok(m) => m.wf() && m.key_seq() == self.envs.key_seq() && env_plans(
                    self.envs.val_seq(),
                    self.credentials(),
                ) == Ok::<Seq<Seq<(Seq<char>, Option<SshPlanView>)>>, SshUrlError>(
                    m.val_seq().map_values(|v: Vec<(String, Option<SshCredentialsPlan>)>| targets_view(v)),
                ),
                Err(e) => env_plans(self.envs.val_seq(), self.credentials()) == Err::<
                    Seq<Seq<(Seq<char>, Option<SshPlanView>)>>,
                    SshUrlError,
                >(e),
            },
    {
        let keys = crate::text::clone_strings(&self.envs.keys);
        let mut vals: Vec<Vec<(String, Option<SshCredentialsPlan>)>> = Vec::new();
        let mut i: usize = 0;
        let ghost envs = self.envs.val_seq();
        assert(envs.take(0) =~= Seq::<Vec<VmSettingsModel>>::empty());
        assert(vals@.map_values(|v: Vec<(String, Option<SshCredentialsPlan>)>| targets_view(v)) =~= Seq::empty());
        while i < self.envs.len()
            invariant
                self.wf(),
                envs == self.envs.val_seq(),
                i <= envs.len(),
                vals@.len() == i,
                env_plans(envs.take(i as int), self.credentials()) == Ok::<
                    Seq<Seq<(Seq<char>, Option<SshPlanView>)>>,
                    SshUrlError,
                >(vals@.map_values(|v: Vec<(String, Option<SshCredentialsPlan>)>| targets_view(v))),
            decreases envs.len() - i,
        {
            assert(envs.take(i + 1).drop_last() =~= envs.take(i as int));
            assert(envs.take(i + 1).last() == envs[i as int]);
            let ghost before = vals@;
            match self.env_targets(self.envs.value_at(i)) {
                Ok(v) => {
                    vals.push(v);
                    assert(vals@.map_values(|v: Vec<(String, Option<SshCredentialsPlan>)>| targets_view(v))
                        =~= before.map_values(|v: Vec<(String, Option<SshCredentialsPlan>)>| targets_view(v)).push(
                        targets_view(v),
                    ));
                },
                Err(e) => {
                    proof {
                        lemma_env_plans_err(envs, self.credentials(), i + 1);
                    }
                    return Err(e);
                },
            }
            i = i + 1;
        }
        assert(envs.take(envs.len() as int) =~= envs);
        Ok(StrMap { keys, vals })
    }
}

/// An error in a prefix is the error of the whole list.
pub proof fn lemma_vm_plans_err(
    vms: Seq<VmSettingsModel>,
    credentials: Option<Map<Seq<char>, SshCredentialsSettingsModel>>,
    k: int,
)
    requires
        0 <= k <= vms.len(),
        vm_plans(vms.take(k), credentials) is Err,
    ensures
        vm_plans(vms, credentials) == vm_plans(vms.take(k), credentials),
    decreases vms.len() - k,
{
    if k < vms.len() {
        assert(vms.take(k + 1).drop_last() =~= vms.take(k));
        lemma_vm_plans_err(vms, credentials, k + 1);
    } else {
        assert(vms.take(k) =~= vms);
    }
}

/// An error in a prefix is the error of the whole list.
pub proof fn lemma_env_plans_err(
    envs: Seq<Vec<VmSettingsModel>>,
    credentials: Option<Map<Seq<char>, SshCredentialsSettingsModel>>,
    k: int,
)
    requires
        0 <= k <= envs.len(),
        env_plans(envs.take(k), credentials) is Err,
    ensures
        env_plans(envs, credentials) == env_plans(envs.take(k), credentials),
    decreases envs.len() - k,
{
    if k < envs.len() {
        assert(envs.take(k + 1).drop_last() =~= envs.take(k));
        lemma_env_plans_err(envs, credentials, k + 1);
    } else {
        assert(envs.take(k) =~= envs);
    }
}

/// A list of URLs with their plans, as contents.
pub open spec fn targets_view_seq(v: Seq<(String, Option<SshCredentialsPlan>)>) -> Seq<(Seq<char>, Option<SshPlanView>)> {
    v.map_values(|x: (String, Option<SshCredentialsPlan>)| (x.0@, plan_view(x.1)))
}

} // verus!
