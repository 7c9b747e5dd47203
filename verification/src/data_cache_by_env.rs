use vstd::prelude::*;
use crate::str_map::StrMap;
use crate::metrics_cache::{MetricsCache, VmEntryView, VmTotals, CachedContainerView, cache_after_report,
    entry_totals_fit, entry_containers, all_rows, entry_rows, present, cpu_usages, opt_total, mem_usages,
    mem_limits, count_true, enabled_flags, row_view};
use crate::metrics_cache;
use crate::models::{ContainerJsonModel, ContainerModel, ContainerView, MetricsByVm};
use crate::selected_vm::SelectedVm;

verus! {

/// A container as the list shows it: its cached fields with the recorded samples.
pub open spec fn shown_container<C>(c: CachedContainerView<C>) -> ContainerView<C> {
    ContainerView {
        id: c.id,
        image: c.image,
        names: c.names,
        labels: c.labels,
        enabled: c.enabled,
        cpu: c.cpu,
        mem: c.mem,
        cpu_usage_history: Some(c.cpu_usage_history),
        mem_usage_history: Some(c.mem_usage_history),
    }
}

/// A row of the list: its VM, the agent's URL and the shown container.
pub open spec fn metrics_row_view<C: Copy>(m: MetricsByVm<C>) -> (Option<Seq<char>>, Seq<char>, ContainerView<C>) {
    (
        match m.vm {
            Some(v) => Some(v@),
            None => None,
        },
        m.url@,
        m.container@,
    )
}

/// The rows of the list for the rows of the cache.
pub open spec fn shown_rows<C>(rows: Seq<(Option<Seq<char>>, Seq<char>, CachedContainerView<C>)>) -> Seq<
    (Option<Seq<char>>, Seq<char>, ContainerView<C>),
> {
    rows.map_values(|r: (Option<Seq<char>>, Seq<char>, CachedContainerView<C>)| (r.0, r.1, shown_container(r.2)))
}

/// The rows of the cache for a selection.
pub open spec fn selected_rows<C: Copy>(cache: MetricsCache<C>, selected: SelectedVm) -> Seq<
    (Option<Seq<char>>, Seq<char>, CachedContainerView<C>),
> {
    match selected {
        SelectedVm::All => all_rows(cache.data.key_seq(), cache.data.val_seq()),
        SelectedVm::SingleVm(vm) => if cache.data@.contains_key(vm@) {
            entry_rows(None, cache.data@[vm@])
        } else {
            Seq::empty()
        },
    }
}

/// A cached container with its recorded samples, as the list shows it.
pub fn to_shown_container<C: Copy>(c: metrics_cache::ContainerModel<C>) -> (r: ContainerModel<C>)
    ensures
        r@ == shown_container(c@),
        r.wf() == c.wf(),
        r@.id == c@.id,
        r@.image == c@.image,
        r@.names == c@.names,
        r@.labels == c@.labels,
        r@.enabled == c@.enabled,
        r@.cpu == c@.cpu,
        r@.mem == c@.mem,
        r@.cpu_usage_history == Some(c@.cpu_usage_history),
        r@.mem_usage_history == Some(c@.mem_usage_history),
{
    let cpu = c.cpu_usage_history.get_snapshot();
    let mem = c.mem_usage_history.get_snapshot();
    ContainerModel {
        id: c.id,
        image: c.image,
        names: c.names,
        labels: c.labels,
        enabled: c.enabled,
        cpu: c.cpu,
        mem: c.mem,
        cpu_usage_history: Some(cpu),
        mem_usage_history: Some(mem),
    }
}

/// What the dashboard asks for: the totals of every VM of an environment and,
/// when a VM selection is given, the rows of the container list.
pub struct RequestApiModel<C: Copy> {
    pub vms: StrMap<VmTotals<C>>,
    pub metrics: Option<Vec<MetricsByVm<C>>>,
}

/// The metrics caches of every environment, by environment name.
pub struct DataCacheByEnv<C: Copy> {
    pub envs: StrMap<MetricsCache<C>>,
}

impl<C: Copy> View for DataCacheByEnv<C> {
    type V = Map<Seq<char>, Map<Seq<char>, VmEntryView<C>>>;

    open spec fn view(&self) -> Map<Seq<char>, Map<Seq<char>, VmEntryView<C>>> {
        self.envs@.map_values(|c: MetricsCache<C>| c@)
    }
}

/// The memory totals of every VM of a cache can be computed in `i64`.
pub open spec fn cache_totals_fit<C: Copy>(cache: MetricsCache<C>) -> bool {
    forall|i: int| 0 <= i < cache.data.spec_len() ==> entry_totals_fit(#[trigger] cache.data.val_seq()[i])
}

impl<C: Copy> DataCacheByEnv<C> {
    pub open spec fn wf(&self) -> bool {
        &&& self.envs.wf()
        &&& forall|k: Seq<char>| #[trigger] self.envs@.contains_key(k) ==> self.envs@[k].wf()
    }

    pub fn new() -> (r: Self)
        ensures
            r.wf(),
            r@ == Map::<Seq<char>, Map<Seq<char>, VmEntryView<C>>>::empty(),
    {
        let r = DataCacheByEnv { envs: StrMap::new() };
        assert(r@ =~= Map::<Seq<char>, Map<Seq<char>, VmEntryView<C>>>::empty());
        r
    }

    /// Takes a report of `vm`'s agent at `api_url` in environment `env`.
    pub fn update(&mut self, env: &str, vm: &str, containers: Vec<ContainerJsonModel<C>>, api_url: String)
        requires
            old(self).wf(),
            forall|i: int| 0 <= i < containers@.len() ==> (#[trigger] containers@[i]).wf(),
        ensures
            final(self).wf(),
            final(self)@ == old(self)@.insert(
                env@,
                cache_after_report(
                    if old(self)@.contains_key(env@) {
                        old(self)@[env@]
                    } else {
                        Map::empty()
                    },
                    vm@,
                    containers@,
                    api_url@,
                ),
            ),
    {
        let ghost old_view = self@;
        if !self.envs.contains_key(env) {
            let ghost before = self.envs@;
            self.envs.insert(env.to_owned(), MetricsCache::new());
            assert forall|k: Seq<char>| #[trigger] self.envs@.contains_key(k) implies self.envs@[k].wf() by {
                if k != env@ {
                    assert(before.contains_key(k));
                }
            }
        }
        let ghost mid = self.envs@;
        let ghost mid_map = self.envs;
        match self.envs.find(env) {
            Ok(i) => {
                proof {
                    self.envs.lemma_lookup(i as int);
                }
                self.envs.vals[i].update(vm, containers, api_url);
                proof {
                    mid_map.lemma_set_value(self.envs, i as int);
                    assert forall|k: Seq<char>| #[trigger] self.envs@.contains_key(k) implies self.envs@[k].wf() by {
                        if k != env@ {
                            assert(mid.contains_key(k));
                        }
                    }
                    if old_view.contains_key(env@) {
                        assert(mid[env@] == old(self).envs@[env@]);
                    } else {
                        assert(mid[env@]@ =~= Map::<Seq<char>, VmEntryView<C>>::empty());
                    }
                    assert(self@ =~= old_view.insert(
                        env@,
                        cache_after_report(
                            if old_view.contains_key(env@) {
                                old_view[env@]
                            } else {
                                Map::empty()
                            },
                            vm@,
                            containers@,
                            api_url@,
                        ),
                    ));
                }
            },
            Err(_) => {
                assert(false);
            },
        }
    }

    /// Whether the memory totals of the VMs of `env` can be computed in `i64`.
    pub fn totals_fit(&self, env: &str) -> (r: bool)
        requires
            self.wf(),
        ensures
            r == (self.envs@.contains_key(env@) ==> cache_totals_fit(self.envs@[env@])),
    {
        match self.envs.get(env) {
            Some(cache) => cache.totals_fit(),
            None => true,
        }
    }

    /// The totals of the VMs of `env` and, when a selection is given, the
    /// rows of the container list with the recorded samples; nothing for an
    /// unknown environment.
    pub fn get_vm_cpu_and_mem(&self, env: &str, selected_vm: Option<&SelectedVm>) -> (r: RequestApiModel<C>)
        requires
            self.wf(),
            self.envs@.contains_key(env@) ==> cache_totals_fit(self.envs@[env@]),
        ensures
            r.vms.wf(),
            !self.envs@.contains_key(env@) ==> r.vms.spec_len() == 0 && r.metrics is None,
            self.envs@.contains_key(env@) ==> {
                let cache = self.envs@[env@];
                &&& r.vms.key_seq() == cache.data.key_seq()
                &&& forall|i: int|
                    0 <= i < r.vms.spec_len() ==> {
                        let cs = entry_containers(cache.data.val_seq()[i]);
                        let t = #[trigger] r.vms.val_seq()[i];
                        &&& t.api_url@ == cache.data.val_seq()[i].api_url@
                        &&& t.cpu_samples@ == present(cpu_usages(cs))
                        &&& t.mem as int == opt_total(mem_usages(cs))
                        &&& t.mem_limit as int == opt_total(mem_limits(cs))
                        &&& t.containers_amount as int == count_true(enabled_flags(cs))
                    }
                &&& match selected_vm {
                    None => r.metrics is None,
                    Some(sel) => r.metrics matches Some(m) && m@.map_values(
                        |x: MetricsByVm<C>| metrics_row_view(x),
                    ) == shown_rows(selected_rows(cache, *sel)),
                }
            },
    {
        match self.envs.get(env) {
            None => RequestApiModel { vms: StrMap::new(), metrics: None },
            Some(cache) => {
                let vms = cache.get_vm_cpu_and_mem();
                let metrics = match selected_vm {
                    None => None,
                    Some(sel) => {
                        let rows = cache.get_metrics_by_vm(sel);
                        let ghost rows_view = rows@.map_values(
                            |x: (Option<String>, String, metrics_cache::ContainerModel<C>)| row_view(x),
                        );
                        let mut result: Vec<MetricsByVm<C>> = Vec::new();
                        let ghost all = rows@;
                        assert(rows_view.take(0) =~= Seq::empty());
                        for row in it: rows.into_iter()
                            invariant
                                all == it.seq(),
                                rows_view == all.map_values(
                                    |x: (Option<String>, String, metrics_cache::ContainerModel<C>)| row_view(x),
                                ),
                                result@.map_values(|x: MetricsByVm<C>| metrics_row_view(x)) == shown_rows(
                                    rows_view.take(it.index() as int),
                                ),
                        {
                            let ghost j = it.index() as int;
                            let ghost before = result@;
                            assert(all[j] == row);
                            let (vm, url, container) = row;
                            let shown = to_shown_container(container);
                            let item = MetricsByVm { vm, url, container: shown };
                            result.push(item);
                            proof {
                                assert(rows_view.take(j + 1) =~= rows_view.take(j).push(rows_view[j]));
                                assert(result@.map_values(|x: MetricsByVm<C>| metrics_row_view(x)) =~= before.map_values(
                                    |x: MetricsByVm<C>| metrics_row_view(x),
                                ).push(metrics_row_view(item)));
                                assert(shown_rows(rows_view.take(j + 1)) =~= shown_rows(rows_view.take(j)).push(
                                    (rows_view[j].0, rows_view[j].1, shown_container(rows_view[j].2)),
                                ));
                            }
                        }
                        assert(rows_view.take(rows_view.len() as int) =~= rows_view);
                        Some(result)
                    },
                };
                RequestApiModel { vms, metrics }
            },
        }
    }
}

/// Each row of the list shows the cached container as it is: the same id,
/// image, names, labels, state, CPU usage and memory figures, with its sample
/// histories; and the rows keep the VM, the agent's URL and the order of the
/// cache's rows.
pub proof fn lemma_shown_rows_keep_containers<C>(
    rows: Seq<(Option<Seq<char>>, Seq<char>, CachedContainerView<C>)>,
    i: int,
)
    requires
        0 <= i < rows.len(),
    ensures
        shown_rows(rows).len() == rows.len(),
        ({
            let shown = shown_rows(rows)[i];
            let c = rows[i].2;
            &&& shown.0 == rows[i].0
            &&& shown.1 == rows[i].1
            &&& shown.2.id == c.id
            &&& shown.2.image == c.image
            &&& shown.2.names == c.names
            &&& shown.2.labels == c.labels
            &&& shown.2.enabled == c.enabled
            &&& shown.2.cpu == c.cpu
            &&& shown.2.mem == c.mem
            &&& shown.2.cpu_usage_history == Some(c.cpu_usage_history)
            &&& shown.2.mem_usage_history == Some(c.mem_usage_history)
        }),
{
}

/// A report for environment `env` leaves every other environment as it was,
/// and `env` has a cache afterwards.
pub proof fn lemma_report_touches_one_env<C: Copy>(
    before: Map<Seq<char>, Map<Seq<char>, VmEntryView<C>>>,
    env: Seq<char>,
    vm: Seq<char>,
    containers: Seq<ContainerJsonModel<C>>,
    api_url: Seq<char>,
    other: Seq<char>,
)
    ensures
        ({
            let after = before.insert(
                env,
                cache_after_report(
                    if before.contains_key(env) {
                        before[env]
                    } else {
                        Map::empty()
                    },
                    vm,
                    containers,
                    api_url,
                ),
            );
            &&& after.contains_key(env)
            &&& other != env ==> after.contains_key(other) == before.contains_key(other)
            &&& other != env && before.contains_key(other) ==> after[other] == before[other]
        }),
{
}

} // verus!
