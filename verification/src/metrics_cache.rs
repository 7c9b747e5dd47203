use vstd::prelude::*;
use crate::str_map::StrMap;
use crate::metrics_history::{MetricsHistory, keep_last, METRICS_HISTORY_SIZE};
use crate::models::{ContainerJsonModel, ContainerJsonView, CpuUsageJsonMode, MemUsageJsonMode,
    labels_view, labels_wf, container_matches, container_filter, clone_labels};
use crate::text::{strs_view, clone_strings};
use crate::selected_vm::SelectedVm;

verus! {

/// A container as the cache keeps it, with the recent CPU and memory samples.
pub struct ContainerModel<C: Copy> {
    pub id: String,
    pub image: String,
    pub names: Vec<String>,
    pub labels: Option<StrMap<String>>,
    pub enabled: bool,
    pub cpu: CpuUsageJsonMode<C>,
    pub mem: MemUsageJsonMode,
    pub cpu_usage_history: MetricsHistory<C>,
    pub mem_usage_history: MetricsHistory<i64>,
}

/// The contents of a cached container.
pub struct CachedContainerView<C> {
    pub id: Seq<char>,
    pub image: Seq<char>,
    pub names: Seq<Seq<char>>,
    pub labels: Option<Seq<(Seq<char>, Seq<char>)>>,
    pub enabled: bool,
    pub cpu: Option<C>,
    pub mem: MemUsageJsonMode,
    pub cpu_usage_history: Seq<C>,
    pub mem_usage_history: Seq<i64>,
}

impl<C: Copy> View for ContainerModel<C> {
    type V = CachedContainerView<C>;

    open spec fn view(&self) -> CachedContainerView<C> {
        CachedContainerView {
            id: self.id@,
            image: self.image@,
            names: strs_view(self.names@),
            labels: labels_view(self.labels),
            enabled: self.enabled,
            cpu: self.cpu.usage,
            mem: self.mem,
            cpu_usage_history: self.cpu_usage_history@,
            mem_usage_history: self.mem_usage_history@,
        }
    }
}

/// Appends a sample to a window of samples when there is one.
pub open spec fn record_sample<T>(history: Seq<T>, sample: Option<T>) -> Seq<T> {
    match sample {
        Some(v) => keep_last(history.push(v), METRICS_HISTORY_SIZE as nat),
        None => history,
    }
}

/// A container first seen in a report: its reported fields and no samples yet.
pub open spec fn fresh_container<C>(j: ContainerJsonView<C>) -> CachedContainerView<C> {
    CachedContainerView {
        id: j.id,
        image: j.image,
        names: j.names,
        labels: j.labels,
        enabled: j.enabled,
        cpu: j.cpu,
        mem: j.mem,
        cpu_usage_history: Seq::empty(),
        mem_usage_history: Seq::empty(),
    }
}

/// A known container after a new report: the reported usage is recorded in the
/// histories, and usage, labels, state and image are taken from the report.
pub open spec fn updated_container<C>(
    c: CachedContainerView<C>,
    j: ContainerJsonView<C>,
) -> CachedContainerView<C> {
    CachedContainerView {
        cpu_usage_history: record_sample(c.cpu_usage_history, j.cpu),
        mem_usage_history: record_sample(c.mem_usage_history, j.mem.usage),
        cpu: j.cpu,
        mem: j.mem,
        labels: j.labels,
        enabled: j.enabled,
        image: j.image,
        ..c
    }
}

impl<C: Copy> ContainerJsonModel<C> {
    /// A cached container for a container first seen in a report.
    pub fn into(self) -> (r: ContainerModel<C>)
        ensures
            r@ == fresh_container(self@),
            r.wf() == self.wf(),
    {
        ContainerModel {
            id: self.id,
            image: self.image,
            names: self.names,
            labels: self.labels,
            enabled: self.enabled,
            cpu: self.cpu,
            mem: self.mem,
            cpu_usage_history: MetricsHistory::new(),
            mem_usage_history: MetricsHistory::new(),
        }
    }
}

impl<C: Copy> ContainerModel<C> {
    pub open spec fn wf(&self) -> bool {
        labels_wf(self.labels)
    }

    /// Whether the container matches the filter text `value`.
    pub fn filter_me(&self, value: &str) -> (r: bool)
        requires
            self.wf(),
        ensures
            r == container_matches(self@.id, self@.image, self@.names, self@.labels, value@),
    {
        container_filter(&self.id, &self.image, &self.names, &self.labels, value)
    }

    /// Records the reported usage and takes the reported fields.
    pub fn update(&mut self, src: ContainerJsonModel<C>)
        requires
            src.wf(),
        ensures
            final(self).wf(),
            final(self)@ == updated_container(old(self)@, src@),
            final(self).enabled == src.enabled,
            final(self).cpu.usage == src.cpu.usage,
            final(self).mem == src.mem,
            final(self).image@ == src.image@,
            labels_view(final(self).labels) == labels_view(src.labels),
            final(self).id@ == old(self).id@,
            final(self)@.names == old(self)@.names,
            final(self).cpu_usage_history@ == match src.cpu.usage {
                Some(x) => keep_last(old(self).cpu_usage_history@.push(x), METRICS_HISTORY_SIZE as nat),
                None => old(self).cpu_usage_history@,
            },
            final(self).mem_usage_history@ == match src.mem.usage {
                Some(x) => keep_last(old(self).mem_usage_history@.push(x), METRICS_HISTORY_SIZE as nat),
                None => old(self).mem_usage_history@,
            },
    {
        if let Some(usage) = src.cpu.usage {
            self.cpu_usage_history.add(usage);
        }
        if let Some(usage) = src.mem.usage {
            self.mem_usage_history.add(usage);
        }
        self.cpu = src.cpu;
        self.mem = src.mem;
        self.labels = src.labels;
        self.enabled = src.enabled;
        self.image = src.image;
    }
}

impl<C: Copy> Clone for ContainerModel<C> {
    fn clone(&self) -> (r: Self)
        ensures
            r.wf() == self.wf(),
            r@ == self@,
    {
        let r = ContainerModel {
            id: self.id.clone(),
            image: self.image.clone(),
            names: clone_strings(&self.names),
            labels: clone_labels(&self.labels),
            enabled: self.enabled,
            cpu: self.cpu.clone(),
            mem: self.mem,
            cpu_usage_history: self.cpu_usage_history.clone(),
            mem_usage_history: self.mem_usage_history.clone(),
        };
        assert(r@.names == self@.names);
        r
    }
}

/// The contents of each cached container of a map.
pub open spec fn cached_views<C: Copy>(m: Map<Seq<char>, ContainerModel<C>>) -> Map<
    Seq<char>,
    CachedContainerView<C>,
> {
    m.map_values(|c: ContainerModel<C>| c@)
}

/// The contents of each reported container of a map.
pub open spec fn reported_views<C: Copy>(m: Map<Seq<char>, ContainerJsonModel<C>>) -> Map<
    Seq<char>,
    ContainerJsonView<C>,
> {
    m.map_values(|c: ContainerJsonModel<C>| c@)
}

/// The reported containers by id; when an id is reported twice the later report wins.
pub open spec fn index_by_id<C: Copy>(s: Seq<ContainerJsonModel<C>>) -> Map<
    Seq<char>,
    ContainerJsonView<C>,
>
    decreases s.len(),
{
    if s.len() == 0 {
        Map::empty()
    } else {
        index_by_id(s.drop_last()).insert(s.last().id@, s.last()@)
    }
}

/// The containers of a VM after a report: exactly the reported ones; a container
/// known before is updated from its report, a new one starts without samples.
pub open spec fn merge_containers<C>(
    known: Map<Seq<char>, CachedContainerView<C>>,
    reported: Map<Seq<char>, ContainerJsonView<C>>,
) -> Map<Seq<char>, CachedContainerView<C>> {
    Map::new(
        |id: Seq<char>| reported.contains_key(id),
        |id: Seq<char>|
            if known.contains_key(id) {
                updated_container(known[id], reported[id])
            } else {
                fresh_container(reported[id])
            },
    )
}

/// Every value of a map of cached containers is well formed and kept under its id.
pub open spec fn containers_wf<C: Copy>(m: StrMap<ContainerModel<C>>) -> bool {
    &&& m.wf()
    &&& forall|k: Seq<char>| #[trigger] m@.contains_key(k) ==> m@[k].wf() && m@[k].id@ == k
}

/// Every value of a map of reported containers is well formed and kept under its id.
pub open spec fn reports_wf<C: Copy>(m: StrMap<ContainerJsonModel<C>>) -> bool {
    &&& m.wf()
    &&& forall|k: Seq<char>| #[trigger] m@.contains_key(k) ==> m@[k].wf() && m@[k].id@ == k
}

/// The reported containers by id.
pub fn index_containers<C: Copy>(containers: Vec<ContainerJsonModel<C>>) -> (r: StrMap<
    ContainerJsonModel<C>,
>)
    requires
        forall|i: int| 0 <= i < containers@.len() ==> (#[trigger] containers@[i]).wf(),
    ensures
        reports_wf(r),
        reported_views(r@) == index_by_id(containers@),
{
    let ghost s = containers@;
    let mut r: StrMap<ContainerJsonModel<C>> = StrMap::new();
    assert(reported_views(r@) =~= index_by_id(s.take(0)));
    for c in it: containers.into_iter()
        invariant
            s == it.seq(),
            reports_wf(r),
            forall|i: int| 0 <= i < s.len() ==> (#[trigger] s[i]).wf(),
            reported_views(r@) == index_by_id(s.take(it.index() as int)),
    {
        let ghost n = it.index() as int;
        assert(s[n] == c);
        let id = c.id.clone();
        let ghost before = r@;
        r.insert(id, c);
        proof {
            assert(s.take(n + 1).drop_last() =~= s.take(n));
            assert(s.take(n + 1).last() == c);
            assert(reported_views(r@) =~= reported_views(before).insert(c.id@, c@));
        }
    }
    assert(s.take(s.len() as int) =~= s);
    r
}

/// Removes from `current` the keys that `src` does not have.
pub fn remove_not_used_keys_keys<V, V2>(current: &mut StrMap<V>, src: &StrMap<V2>)
    requires
        old(current).wf(),
        src.wf(),
    ensures
        final(current).wf(),
        final(current)@ == old(current)@.restrict(src@.dom()),
{
    let ghost old_map = current@;
    let mut keys_to_removed: Vec<String> = Vec::new();
    let mut i: usize = 0;
    while i < current.len()
        invariant
            current.wf(),
            src.wf(),
            current@ == old_map,
            i <= current.spec_len(),
            forall|k: Seq<char>|
                #[trigger] strs_view(keys_to_removed@).contains(k) <==> (old_map.contains_key(k)
                    && !src@.contains_key(k) && current.index_of(k) < i),
        decreases current.spec_len() - i,
    {
        let key = current.key_at(i);
        proof {
            current.lemma_lookup(i as int);
        }
        if !src.contains_key(key.as_str()) {
            let ghost before = keys_to_removed@;
            keys_to_removed.push(key.clone());
            proof {
                assert(strs_view(keys_to_removed@) =~= strs_view(before).push(key@));
                assert forall|k: Seq<char>|
                    #[trigger] strs_view(keys_to_removed@).contains(k) <==> (old_map.contains_key(k)
                        && !src@.contains_key(k) && current.index_of(k) < i + 1) by {
                    if strs_view(keys_to_removed@).contains(k) && k != key@ {
                        assert(strs_view(before).contains(k)) by {
                            let j = choose|j: int|
                                0 <= j < strs_view(keys_to_removed@).len() && strs_view(
                                    keys_to_removed@,
                                )[j] == k;
                            assert(strs_view(before)[j] == k);
                        }
                    }
                    if old_map.contains_key(k) && current.index_of(k) == i {
                        current.lemma_index_of(k);
                        assert(strs_view(keys_to_removed@)[before.len() as int] == k);
                    }
                    if k == key@ {
                        assert(strs_view(keys_to_removed@)[before.len() as int] == k);
                    }
                    if old_map.contains_key(k) && !src@.contains_key(k) && current.index_of(k) < i {
                        assert(strs_view(before).contains(k));
                        let j = choose|j: int|
                            0 <= j < strs_view(before).len() && #[trigger] strs_view(before)[j] == k;
                        assert(strs_view(keys_to_removed@)[j] == k);
                    }
                }
            }
        } else {
            proof {
                assert forall|k: Seq<char>|
                    #[trigger] strs_view(keys_to_removed@).contains(k) <==> (old_map.contains_key(k)
                        && !src@.contains_key(k) && current.index_of(k) < i + 1) by {
                    if old_map.contains_key(k) && current.index_of(k) == i {
                        current.lemma_index_of(k);
                    }
                }
            }
        }
        i = i + 1;
    }
    proof {
        assert forall|k: Seq<char>|
            #[trigger] strs_view(keys_to_removed@).contains(k) <==> (old_map.contains_key(k)
                && !src@.contains_key(k)) by {
            if old_map.contains_key(k) {
                current.lemma_index_of(k);
            }
        }
    }
    let mut m: usize = 0;
    assert(strs_view(keys_to_removed@).take(0) =~= Seq::<Seq<char>>::empty());
    while m < keys_to_removed.len()
        invariant
            current.wf(),
            m <= keys_to_removed@.len(),
            forall|k: Seq<char>|
                #[trigger] current@.contains_key(k) <==> (old_map.contains_key(k) && !strs_view(
                    keys_to_removed@,
                ).take(m as int).contains(k)),
            forall|k: Seq<char>| #[trigger] current@.contains_key(k) ==> current@[k] == old_map[k],
            forall|k: Seq<char>|
                #[trigger] strs_view(keys_to_removed@).contains(k) <==> (old_map.contains_key(k)
                    && !src@.contains_key(k)),
        decreases keys_to_removed@.len() - m,
    {
        let ghost before = current@;
        current.remove(keys_to_removed[m].as_str());
        proof {
            let kv = strs_view(keys_to_removed@);
            assert(kv.take(m + 1) =~= kv.take(m as int).push(kv[m as int]));
            assert forall|k: Seq<char>|
                #[trigger] current@.contains_key(k) <==> (old_map.contains_key(k) && !kv.take(
                    m + 1,
                ).contains(k)) by {
                let t = kv.take(m + 1);
                if t.contains(k) && k != kv[m as int] {
                    let j = choose|j: int| 0 <= j < m + 1 && #[trigger] t[j] == k;
                    assert(kv.take(m as int)[j] == k);
                }
                if kv.take(m as int).contains(k) {
                    let j = choose|j: int| 0 <= j < m && #[trigger] kv.take(m as int)[j] == k;
                    assert(t[j] == k);
                }
                if k == kv[m as int] {
                    assert(t[m as int] == k);
                }
            }
        }
        m = m + 1;
    }
    proof {
        let kv = strs_view(keys_to_removed@);
        assert(kv.take(kv.len() as int) =~= kv);
    }
    assert(current@ =~= old_map.restrict(src@.dom()));
}

/// Brings the known containers up to date with a report whose ids include all
/// of them.
fn merge_reported<C: Copy>(containers: &mut StrMap<ContainerModel<C>>, src: StrMap<ContainerJsonModel<C>>)
    requires
        containers_wf(*old(containers)),
        reports_wf(src),
        old(containers)@.dom().subset_of(src@.dom()),
    ensures
        containers_wf(*final(containers)),
        cached_views(final(containers)@) == merge_containers(
            cached_views(old(containers)@),
            reported_views(src@),
        ),
{
    let ghost known = cached_views(containers@);
    let ghost old_map = containers@;
    let ghost reported = reported_views(src@);
    let ghost orig = src;
    let StrMap { mut keys, mut vals } = src;
    let mut n: usize = keys.len();
    while n > 0
        invariant
            orig.wf(),
            reports_wf(orig),
            n <= orig.spec_len(),
            keys@ == orig.keys@.take(n as int),
            vals@ == orig.vals@.take(n as int),
            reported == reported_views(orig@),
            known == cached_views(old_map),
            old_map.dom().subset_of(orig@.dom()),
            containers_wf(*containers),
            forall|id: Seq<char>| #[trigger]
                containers@.contains_key(id) <==> (old_map.contains_key(id) || (orig@.contains_key(id)
                    && orig.index_of(id) >= n)),
            forall|id: Seq<char>| #[trigger]
                containers@.contains_key(id) ==> if orig@.contains_key(id) && orig.index_of(id) >= n {
                    containers@[id]@ == merge_containers(known, reported)[id]
                } else {
                    containers@[id] == old_map[id]
                },
        decreases n,
    {
        let id = keys.pop().unwrap();
        let c = vals.pop().unwrap();
        n = n - 1;
        proof {
            assert(keys@ =~= orig.keys@.take(n as int));
            assert(vals@ =~= orig.vals@.take(n as int));
            orig.lemma_lookup(n as int);
            assert(orig.key_seq()[n as int] == id@);
            assert(orig@[id@] == c);
        }
        let ghost before = containers@;
        let ghost before_map = *containers;
        match containers.find(id.as_str()) {
            Ok(j) => {
                proof {
                    containers.lemma_lookup(j as int);
                    assert(before[id@] == old_map[id@]);
                }
                containers.vals[j].update(c);
                proof {
                    before_map.lemma_set_value(*containers, j as int);
                }
            },
            Err(_) => {
                containers.insert(id, c.into());
            },
        }
        proof {
            assert forall|k: Seq<char>| #[trigger]
                containers@.contains_key(k) <==> (old_map.contains_key(k) || (orig@.contains_key(k)
                    && orig.index_of(k) >= n)) by {
                if orig@.contains_key(k) && orig.index_of(k) == n {
                    orig.lemma_index_of(k);
                }
            }
            assert forall|k: Seq<char>| #[trigger]
                containers@.contains_key(k) implies if orig@.contains_key(k) && orig.index_of(k) >= n {
                    containers@[k]@ == merge_containers(known, reported)[k]
                } else {
                    containers@[k] == old_map[k]
                } by {
                if orig@.contains_key(k) && orig.index_of(k) == n {
                    orig.lemma_index_of(k);
                    assert(k == id@);
                }
                if k == id@ {
                    orig.lemma_lookup(n as int);
                }
            }
        }
    }
    proof {
        assert forall|k: Seq<char>| #[trigger] containers@.contains_key(k) implies orig@.contains_key(k)
            && orig.index_of(k) >= 0 by {
            if orig@.contains_key(k) {
                orig.lemma_index_of(k);
            }
        }
        assert(cached_views(containers@) =~= merge_containers(known, reported));
    }
}

/// The containers of one VM and the URL of the agent that reports them.
pub struct ContainersWrapper<C: Copy> {
    pub api_url: String,
    pub containers: StrMap<ContainerModel<C>>,
}

/// The contents of the cache entry of one VM.
pub struct VmEntryView<C> {
    pub api_url: Seq<char>,
    pub containers: Map<Seq<char>, CachedContainerView<C>>,
}

impl<C: Copy> View for ContainersWrapper<C> {
    type V = VmEntryView<C>;

    open spec fn view(&self) -> VmEntryView<C> {
        VmEntryView { api_url: self.api_url@, containers: cached_views(self.containers@) }
    }
}

impl<C: Copy> ContainersWrapper<C> {
    pub open spec fn wf(&self) -> bool {
        containers_wf(self.containers)
    }
}

/// Replaces the containers of a VM's entry by the reported ones.
fn update_wrapper<C: Copy>(w: &mut ContainersWrapper<C>, src: StrMap<ContainerJsonModel<C>>)
    requires
        old(w).wf(),
        reports_wf(src),
    ensures
        final(w).wf(),
        final(w)@ == (VmEntryView {
            api_url: old(w)@.api_url,
            containers: merge_containers(old(w)@.containers, reported_views(src@)),
        }),
{
    let ghost known = w@.containers;
    remove_not_used_keys_keys(&mut w.containers, &src);
    merge_reported(&mut w.containers, src);
    assert(w@.containers =~= merge_containers(known, reported_views(src@)));
}

/// The entry of one VM, as its contents.
pub open spec fn vm_entry_view<C: Copy>(w: ContainersWrapper<C>) -> VmEntryView<C> {
    w@
}

/// The cache after a report of `vm`'s agent at `api_url` with `containers`:
/// a new VM gets an entry with that URL (a known VM keeps its URL), and the
/// VM's containers become the reported ones.
pub open spec fn cache_after_report<C: Copy>(
    cache: Map<Seq<char>, VmEntryView<C>>,
    vm: Seq<char>,
    containers: Seq<ContainerJsonModel<C>>,
    api_url: Seq<char>,
) -> Map<Seq<char>, VmEntryView<C>> {
    let known = cache.contains_key(vm);
    cache.insert(
        vm,
        VmEntryView {
            api_url: if known {
                cache[vm].api_url
            } else {
                api_url
            },
            containers: merge_containers(
                if known {
                    cache[vm].containers
                } else {
                    Map::empty()
                },
                index_by_id(containers),
            ),
        },
    )
}

/// Totals of one VM: the CPU samples to add up (in container order), the sum
/// of the memory usages and of the memory limits, and the number of enabled
/// containers.
pub struct VmTotals<C: Copy> {
    pub api_url: String,
    pub cpu_samples: Vec<C>,
    pub mem: i64,
    pub mem_limit: i64,
    pub containers_amount: usize,
}

/// The sum of the present values.
pub open spec fn opt_total(s: Seq<Option<i64>>) -> int
    decreases s.len(),
{
    if s.len() == 0 {
        0
    } else {
        opt_total(s.drop_last()) + match s.last() {
            Some(v) => v as int,
            None => 0,
        }
    }
}

/// Every running total of the present values fits in an `i64`.
pub open spec fn running_totals_fit(s: Seq<Option<i64>>) -> bool {
    forall|k: int| 0 <= k <= s.len() ==> i64::MIN <= #[trigger] opt_total(s.take(k)) <= i64::MAX
}

/// The present values, in order.
pub open spec fn present<T>(s: Seq<Option<T>>) -> Seq<T>
    decreases s.len(),
{
    if s.len() == 0 {
        Seq::empty()
    } else {
        match s.last() {
            Some(v) => present(s.drop_last()).push(v),
            None => present(s.drop_last()),
        }
    }
}

/// How many of the flags are set.
pub open spec fn count_true(s: Seq<bool>) -> nat
    decreases s.len(),
{
    if s.len() == 0 {
        0
    } else {
        count_true(s.drop_last()) + if s.last() {
            1nat
        } else {
            0nat
        }
    }
}

/// The containers of an entry, in id order.
pub open spec fn entry_containers<C: Copy>(w: ContainersWrapper<C>) -> Seq<CachedContainerView<C>> {
    w.containers.val_seq().map_values(|c: ContainerModel<C>| c@)
}

pub open spec fn mem_usages<C>(cs: Seq<CachedContainerView<C>>) -> Seq<Option<i64>> {
    cs.map_values(|c: CachedContainerView<C>| c.mem.usage)
}

pub open spec fn mem_limits<C>(cs: Seq<CachedContainerView<C>>) -> Seq<Option<i64>> {
    cs.map_values(|c: CachedContainerView<C>| c.mem.limit)
}

pub open spec fn cpu_usages<C>(cs: Seq<CachedContainerView<C>>) -> Seq<Option<C>> {
    cs.map_values(|c: CachedContainerView<C>| c.cpu)
}

pub open spec fn enabled_flags<C>(cs: Seq<CachedContainerView<C>>) -> Seq<bool> {
    cs.map_values(|c: CachedContainerView<C>| c.enabled)
}

/// The memory sums of an entry can be computed in `i64`.
pub open spec fn entry_totals_fit<C: Copy>(w: ContainersWrapper<C>) -> bool {
    &&& running_totals_fit(mem_usages(entry_containers(w)))
    &&& running_totals_fit(mem_limits(entry_containers(w)))
}

/// A row of the container list: the VM (when every VM is shown), the agent's
/// URL and the container.
pub open spec fn row_view<C: Copy>(r: (Option<String>, String, ContainerModel<C>)) -> (Option<Seq<char>>, Seq<char>, CachedContainerView<C>) {
    (
        match r.0 {
            Some(v) => Some(v@),
            None => None,
        },
        r.1@,
        r.2@,
    )
}

/// The rows of one entry.
pub open spec fn entry_rows<C: Copy>(vm: Option<Seq<char>>, w: ContainersWrapper<C>) -> Seq<
    (Option<Seq<char>>, Seq<char>, CachedContainerView<C>),
> {
    entry_containers(w).map_values(|c: CachedContainerView<C>| (vm, w.api_url@, c))
}

/// The rows of every entry, VM by VM in name order.
pub open spec fn all_rows<C: Copy>(vms: Seq<Seq<char>>, ws: Seq<ContainersWrapper<C>>) -> Seq<
    (Option<Seq<char>>, Seq<char>, CachedContainerView<C>),
>
    decreases ws.len(),
{
    if ws.len() == 0 || vms.len() != ws.len() {
        Seq::empty()
    } else {
        all_rows(vms.drop_last(), ws.drop_last()) + entry_rows(Some(vms.last()), ws.last())
    }
}

/// The metrics of the containers of every VM, by VM name.
pub struct MetricsCache<C: Copy> {
    pub data: StrMap<ContainersWrapper<C>>,
}

impl<C: Copy> View for MetricsCache<C> {
    type V = Map<Seq<char>, VmEntryView<C>>;

    open spec fn view(&self) -> Map<Seq<char>, VmEntryView<C>> {
        self.data@.map_values(|w: ContainersWrapper<C>| w@)
    }
}

impl<C: Copy> MetricsCache<C> {
    pub open spec fn wf(&self) -> bool {
        &&& self.data.wf()
        &&& forall|k: Seq<char>| #[trigger] self.data@.contains_key(k) ==> self.data@[k].wf()
    }

    /// The entry at position `i` is well formed.
    pub proof fn lemma_entry_wf(&self, i: int)
        requires
            self.wf(),
            0 <= i < self.data.spec_len(),
        ensures
            self.data.val_seq()[i].wf(),
            self@[self.data.key_seq()[i]] == self.data.val_seq()[i]@,
    {
        self.data.lemma_lookup(i);
    }

    pub fn new() -> (r: Self)
        ensures
            r.wf(),
            r@ == Map::<Seq<char>, VmEntryView<C>>::empty(),
    {
        let r = MetricsCache { data: StrMap::new() };
        assert(r@ =~= Map::<Seq<char>, VmEntryView<C>>::empty());
        r
    }

    /// Takes a report of `vm`'s agent at `api_url`.
    pub fn update(&mut self, vm: &str, containers: Vec<ContainerJsonModel<C>>, api_url: String)
        requires
            old(self).wf(),
            forall|i: int| 0 <= i < containers@.len() ==> (#[trigger] containers@[i]).wf(),
        ensures
            final(self).wf(),
            final(self)@ == cache_after_report(old(self)@, vm@, containers@, api_url@),
    {
        let ghost old_view = self@;
        let ghost reports = containers@;
        let src = index_containers(containers);
        if !self.data.contains_key(vm) {
            let ghost before = self.data@;
            let w = ContainersWrapper { api_url, containers: StrMap::new() };
            assert(w@.containers =~= Map::<Seq<char>, CachedContainerView<C>>::empty());
            self.data.insert(vm.to_owned(), w);
            assert forall|k: Seq<char>| #[trigger] self.data@.contains_key(k) implies self.data@[k].wf() by {
                if k != vm@ {
                    assert(before.contains_key(k));
                }
            }
        }
        let ghost mid = self.data@;
        let ghost mid_map = self.data;
        match self.data.find(vm) {
            Ok(i) => {
                proof {
                    self.data.lemma_lookup(i as int);
                }
                update_wrapper(&mut self.data.vals[i], src);
                proof {
                    mid_map.lemma_set_value(self.data, i as int);
                    assert forall|k: Seq<char>| #[trigger] self.data@.contains_key(k) implies self.data@[k].wf() by {
                        if k != vm@ {
                            assert(mid.contains_key(k));
                        }
                    }
                    assert(self@ =~= cache_after_report(old_view, vm@, reports, api_url@)) by {
                        if old_view.contains_key(vm@) {
                            assert(mid[vm@] == old(self).data@[vm@]);
                        } else {
                            assert(mid[vm@]@.containers =~= Map::<Seq<char>, CachedContainerView<C>>::empty());
                        }
                    }
                }
            },
            Err(_) => {
                assert(false);
            },
        }
    }
}

/// Copies of the containers of a map, in key order.
fn clone_containers<C: Copy>(m: &StrMap<ContainerModel<C>>) -> (r: Vec<ContainerModel<C>>)
    requires
        containers_wf(*m),
    ensures
        r@.map_values(|c: ContainerModel<C>| c@) == m.val_seq().map_values(|c: ContainerModel<C>| c@),
        forall|i: int| 0 <= i < r@.len() ==> (#[trigger] r@[i]).wf(),
{
    let mut r: Vec<ContainerModel<C>> = Vec::with_capacity(m.len());
    let mut i: usize = 0;
    while i < m.len()
        invariant
            containers_wf(*m),
            i <= m.spec_len(),
            r@.map_values(|c: ContainerModel<C>| c@) == m.val_seq().take(i as int).map_values(
                |c: ContainerModel<C>| c@,
            ),
            forall|j: int| 0 <= j < r@.len() ==> (#[trigger] r@[j]).wf(),
        decreases m.spec_len() - i,
    {
        proof {
            m.lemma_lookup(i as int);
        }
        let c = m.value_at(i).clone();
        let ghost before = r@;
        r.push(c);
        proof {
            assert(m.val_seq().take(i + 1) =~= m.val_seq().take(i as int).push(m.val_seq()[i as int]));
            assert(r@.map_values(|c: ContainerModel<C>| c@) =~= before.map_values(|c: ContainerModel<C>| c@).push(m.val_seq()[i as int]@));
            assert(r@.map_values(|c: ContainerModel<C>| c@) =~= m.val_seq().take(i + 1).map_values(
                |c: ContainerModel<C>| c@,
            ));
        }
        i = i + 1;
    }
    assert(m.val_seq().take(m.spec_len() as int) =~= m.val_seq());
    r
}

impl<C: Copy> MetricsCache<C> {
    /// Copies of the containers of every VM, by VM name, in id order.
    pub fn get_containers(&self) -> (r: StrMap<Vec<ContainerModel<C>>>)
        requires
            self.wf(),
        ensures
            r.wf(),
            r.key_seq() == self.data.key_seq(),
            forall|i: int|
                0 <= i < r.spec_len() ==> (#[trigger] r.val_seq()[i])@.map_values(
                    |c: ContainerModel<C>| c@,
                ) == entry_containers(self.data.val_seq()[i]),
    {
        let keys = clone_strings(&self.data.keys);
        let mut vals: Vec<Vec<ContainerModel<C>>> = Vec::new();
        let mut i: usize = 0;
        while i < self.data.len()
            invariant
                self.wf(),
                i <= self.data.spec_len(),
                vals@.len() == i,
                forall|j: int|
                    0 <= j < i ==> (#[trigger] vals@[j])@.map_values(|c: ContainerModel<C>| c@)
                        == entry_containers(self.data.val_seq()[j]),
            decreases self.data.spec_len() - i,
        {
            proof {
                self.lemma_entry_wf(i as int);
            }
            let items = self.data.value_at(i);
            vals.push(clone_containers(&items.containers));
            i = i + 1;
        }
        StrMap { keys, vals }
    }

    /// The CPU usage of every container of every VM, by VM name and container
    /// id; `missing` stands for a container without a CPU sample.
    pub fn get_cpu_by_vm_and_container(&self, missing: C) -> (r: StrMap<StrMap<C>>)
        requires
            self.wf(),
        ensures
            r.wf(),
            r.key_seq() == self.data.key_seq(),
            forall|i: int|
                0 <= i < r.spec_len() ==> {
                    &&& (#[trigger] r.val_seq()[i]).wf()
                    &&& r.val_seq()[i].key_seq() == self.data.val_seq()[i].containers.key_seq()
                    &&& r.val_seq()[i].val_seq() == cpu_usages(
                        entry_containers(self.data.val_seq()[i]),
                    ).map_values(|u: Option<C>| unwrap_or(u, missing))
                },
    {
        let keys = clone_strings(&self.data.keys);
        let mut vals: Vec<StrMap<C>> = Vec::new();
        let mut i: usize = 0;
        while i < self.data.len()
            invariant
                self.wf(),
                i <= self.data.spec_len(),
                vals@.len() == i,
                forall|j: int|
                    0 <= j < i ==> {
                        &&& (#[trigger] vals@[j]).wf()
                        &&& vals@[j].key_seq() == self.data.val_seq()[j].containers.key_seq()
                        &&& vals@[j].val_seq() == cpu_usages(
                            entry_containers(self.data.val_seq()[j]),
                        ).map_values(|u: Option<C>| unwrap_or(u, missing))
                    },
            decreases self.data.spec_len() - i,
        {
            proof {
                self.lemma_entry_wf(i as int);
            }
            let wrapper = self.data.value_at(i);
            let m = &wrapper.containers;
            let mut ids: Vec<String> = Vec::new();
            let mut usages: Vec<C> = Vec::new();
            let mut k: usize = 0;
            while k < m.len()
                invariant
                    containers_wf(*m),
                    k <= m.spec_len(),
                    strs_view(ids@) == m.key_seq().take(k as int),
                    usages@ == cpu_usages(m.val_seq().map_values(|c: ContainerModel<C>| c@)).take(
                        k as int,
                    ).map_values(|u: Option<C>| unwrap_or(u, missing)),
                decreases m.spec_len() - k,
            {
                proof {
                    m.lemma_lookup(k as int);
                }
                let itm = m.value_at(k);
                let cpu_usage = match itm.cpu.usage {
                    Some(usage) => usage,
                    None => missing,
                };
                let ghost ids_before = ids@;
                ids.push(itm.id.clone());
                usages.push(cpu_usage);
                proof {
                    assert(itm.id@ == m.key_seq()[k as int]);
                    assert(strs_view(ids@) =~= strs_view(ids_before).push(itm.id@));
                    assert(m.key_seq().take(k + 1) =~= m.key_seq().take(k as int).push(m.key_seq()[k as int]));
                    assert(strs_view(ids@) =~= m.key_seq().take(k + 1));
                    let cs = cpu_usages(m.val_seq().map_values(|c: ContainerModel<C>| c@));
                    assert(cs.take(k + 1) =~= cs.take(k as int).push(cs[k as int]));
                    assert(usages@ =~= cs.take(k + 1).map_values(|u: Option<C>| unwrap_or(u, missing)));
                }
                k = k + 1;
            }
            proof {
                assert(m.key_seq().take(m.spec_len() as int) =~= m.key_seq());
                let cs = cpu_usages(m.val_seq().map_values(|c: ContainerModel<C>| c@));
                assert(cs.take(cs.len() as int) =~= cs);
            }
            vals.push(StrMap { keys: ids, vals: usages });
            i = i + 1;
        }
        StrMap { keys, vals }
    }

    /// The memory usage of every container of every VM, by VM name and
    /// container id; 0 for a container without a memory sample.
    pub fn get_mem_by_vm_and_container(&self) -> (r: StrMap<StrMap<i64>>)
        requires
            self.wf(),
        ensures
            r.wf(),
            r.key_seq() == self.data.key_seq(),
            forall|i: int|
                0 <= i < r.spec_len() ==> {
                    &&& (#[trigger] r.val_seq()[i]).wf()
                    &&& r.val_seq()[i].key_seq() == self.data.val_seq()[i].containers.key_seq()
                    &&& r.val_seq()[i].val_seq() == mem_usages(
                        entry_containers(self.data.val_seq()[i]),
                    ).map_values(|u: Option<i64>| unwrap_or(u, 0i64))
                },
    {
        let keys = clone_strings(&self.data.keys);
        let mut vals: Vec<StrMap<i64>> = Vec::new();
        let mut i: usize = 0;
        while i < self.data.len()
            invariant
                self.wf(),
                i <= self.data.spec_len(),
                vals@.len() == i,
                forall|j: int|
                    0 <= j < i ==> {
                        &&& (#[trigger] vals@[j]).wf()
                        &&& vals@[j].key_seq() == self.data.val_seq()[j].containers.key_seq()
                        &&& vals@[j].val_seq() == mem_usages(
                            entry_containers(self.data.val_seq()[j]),
                        ).map_values(|u: Option<i64>| unwrap_or(u, 0i64))
                    },
            decreases self.data.spec_len() - i,
        {
            proof {
                self.lemma_entry_wf(i as int);
            }
            let wrapper = self.data.value_at(i);
            let m = &wrapper.containers;
            let mut ids: Vec<String> = Vec::new();
            let mut usages: Vec<i64> = Vec::new();
            let mut k: usize = 0;
            while k < m.len()
                invariant
                    containers_wf(*m),
                    k <= m.spec_len(),
                    strs_view(ids@) == m.key_seq().take(k as int),
                    usages@ == mem_usages(m.val_seq().map_values(|c: ContainerModel<C>| c@)).take(
                        k as int,
                    ).map_values(|u: Option<i64>| unwrap_or(u, 0i64)),
                decreases m.spec_len() - k,
            {
                proof {
                    m.lemma_lookup(k as int);
                }
                let itm = m.value_at(k);
                let mem_usage = match itm.mem.usage {
                    Some(usage) => usage,
                    None => 0,
                };
                let ghost ids_before = ids@;
                ids.push(itm.id.clone());
                usages.push(mem_usage);
                proof {
                    assert(itm.id@ == m.key_seq()[k as int]);
                    assert(strs_view(ids@) =~= strs_view(ids_before).push(itm.id@));
                    assert(m.key_seq().take(k + 1) =~= m.key_seq().take(k as int).push(m.key_seq()[k as int]));
                    assert(strs_view(ids@) =~= m.key_seq().take(k + 1));
                    let cs = mem_usages(m.val_seq().map_values(|c: ContainerModel<C>| c@));
                    assert(cs.take(k + 1) =~= cs.take(k as int).push(cs[k as int]));
                    assert(usages@ =~= cs.take(k + 1).map_values(|u: Option<i64>| unwrap_or(u, 0i64)));
                }
                k = k + 1;
            }
            proof {
                assert(m.key_seq().take(m.spec_len() as int) =~= m.key_seq());
                let cs = mem_usages(m.val_seq().map_values(|c: ContainerModel<C>| c@));
                assert(cs.take(cs.len() as int) =~= cs);
            }
            vals.push(StrMap { keys: ids, vals: usages });
            i = i + 1;
        }
        StrMap { keys, vals }
    }
}

/// The totals of one entry.
fn entry_totals<C: Copy>(w: &ContainersWrapper<C>) -> (r: VmTotals<C>)
    requires
        w.wf(),
        entry_totals_fit(*w),
    ensures
        r.api_url@ == w.api_url@,
        r.cpu_samples@ == present(cpu_usages(entry_containers(*w))),
        r.mem as int == opt_total(mem_usages(entry_containers(*w))),
        r.mem_limit as int == opt_total(mem_limits(entry_containers(*w))),
        r.containers_amount as int == count_true(enabled_flags(entry_containers(*w))),
{
    let ghost cs = entry_containers(*w);
    let m = &w.containers;
    let mut cpu: Vec<C> = Vec::new();
    let mut mem: i64 = 0;
    let mut mem_limit: i64 = 0;
    let mut containers_amount: usize = 0;
    let mut k: usize = 0;
    while k < m.len()
        invariant
            containers_wf(*m),
            cs == m.val_seq().map_values(|c: ContainerModel<C>| c@),
            running_totals_fit(mem_usages(cs)),
            running_totals_fit(mem_limits(cs)),
            k <= m.spec_len(),
            cpu@ == present(cpu_usages(cs).take(k as int)),
            mem as int == opt_total(mem_usages(cs).take(k as int)),
            mem_limit as int == opt_total(mem_limits(cs).take(k as int)),
            containers_amount as int == count_true(enabled_flags(cs).take(k as int)),
            containers_amount <= k,
        decreases m.spec_len() - k,
    {
        let itm = m.value_at(k);
        let ghost kk = k as int;
        proof {
            assert(cpu_usages(cs).take(kk + 1).drop_last() =~= cpu_usages(cs).take(kk));
            assert(mem_usages(cs).take(kk + 1).drop_last() =~= mem_usages(cs).take(kk));
            assert(mem_limits(cs).take(kk + 1).drop_last() =~= mem_limits(cs).take(kk));
            assert(enabled_flags(cs).take(kk + 1).drop_last() =~= enabled_flags(cs).take(kk));
            assert(mem_usages(cs).take(kk + 1).last() == itm.mem.usage);
            assert(mem_limits(cs).take(kk + 1).last() == itm.mem.limit);
            assert(i64::MIN <= opt_total(mem_usages(cs).take(kk + 1)) <= i64::MAX);
            assert(i64::MIN <= opt_total(mem_limits(cs).take(kk + 1)) <= i64::MAX);
        }
        if let Some(usage) = itm.cpu.usage {
            cpu.push(usage);
        }
        if let Some(usage) = itm.mem.usage {
            mem = mem + usage;
        }
        if let Some(mem_limit_value) = itm.mem.limit {
            mem_limit = mem_limit + mem_limit_value;
        }
        if itm.enabled {
            containers_amount = containers_amount + 1;
        }
        k = k + 1;
    }
    proof {
        assert(cpu_usages(cs).take(cs.len() as int) =~= cpu_usages(cs));
        assert(mem_usages(cs).take(cs.len() as int) =~= mem_usages(cs));
        assert(mem_limits(cs).take(cs.len() as int) =~= mem_limits(cs));
        assert(enabled_flags(cs).take(cs.len() as int) =~= enabled_flags(cs));
    }
    VmTotals { api_url: w.api_url.clone(), cpu_samples: cpu, mem, mem_limit, containers_amount }
}

/// Whether every running total of the present values fits in an `i64`.
pub fn running_totals_fit_exec(s: &Vec<Option<i64>>) -> (r: bool)
    ensures
        r == running_totals_fit(s@),
{
    let mut total: i128 = 0;
    let mut k: usize = 0;
    assert(s@.take(0) =~= Seq::<Option<i64>>::empty());
    while k < s.len()
        invariant
            k <= s@.len(),
            total as int == opt_total(s@.take(k as int)),
            forall|j: int| 0 <= j <= k ==> i64::MIN <= #[trigger] opt_total(s@.take(j)) <= i64::MAX,
        decreases s@.len() - k,
    {
        assert(s@.take(k + 1).drop_last() =~= s@.take(k as int));
        assert(s@.take(k + 1).last() == s@[k as int]);
        if let Some(v) = s[k] {
            total = total + v as i128;
        }
        assert(opt_total(s@.take(k + 1)) == total as int);
        if total < i64::MIN as i128 || total > i64::MAX as i128 {
            assert(!(i64::MIN <= opt_total(s@.take(k + 1)) <= i64::MAX));
            return false;
        }
        k = k + 1;
    }
    assert(s@.take(s@.len() as int) =~= s@);
    true
}

impl<C: Copy> MetricsCache<C> {
    /// Whether the memory totals of every VM can be computed in `i64`.
    pub fn totals_fit(&self) -> (r: bool)
        requires
            self.wf(),
        ensures
            r == forall|i: int| 0 <= i < self.data.spec_len() ==> entry_totals_fit(#[trigger] self.data.val_seq()[i]),
    {
        let mut i: usize = 0;
        while i < self.data.len()
            invariant
                self.wf(),
                i <= self.data.spec_len(),
                forall|j: int| 0 <= j < i ==> entry_totals_fit(#[trigger] self.data.val_seq()[j]),
            decreases self.data.spec_len() - i,
        {
            proof {
                self.lemma_entry_wf(i as int);
            }
            let m = &self.data.value_at(i).containers;
            let ghost cs = entry_containers(self.data.val_seq()[i as int]);
            let mut usages: Vec<Option<i64>> = Vec::new();
            let mut limits: Vec<Option<i64>> = Vec::new();
            let mut k: usize = 0;
            while k < m.len()
                invariant
                    m.wf(),
                    cs == m.val_seq().map_values(|c: ContainerModel<C>| c@),
                    k <= m.spec_len(),
                    usages@ == mem_usages(cs).take(k as int),
                    limits@ == mem_limits(cs).take(k as int),
                decreases m.spec_len() - k,
            {
                let itm = m.value_at(k);
                usages.push(itm.mem.usage);
                limits.push(itm.mem.limit);
                assert(usages@ =~= mem_usages(cs).take(k + 1));
                assert(limits@ =~= mem_limits(cs).take(k + 1));
                k = k + 1;
            }
            assert(mem_usages(cs).take(cs.len() as int) =~= mem_usages(cs));
            assert(mem_limits(cs).take(cs.len() as int) =~= mem_limits(cs));
            if !running_totals_fit_exec(&usages) || !running_totals_fit_exec(&limits) {
                return false;
            }
            i = i + 1;
        }
        true
    }

    /// The totals of every VM, by VM name.
    pub fn get_vm_cpu_and_mem(&self) -> (r: StrMap<VmTotals<C>>)
        requires
            self.wf(),
            forall|i: int| 0 <= i < self.data.spec_len() ==> entry_totals_fit(#[trigger] self.data.val_seq()[i]),
        ensures
            r.wf(),
            r.key_seq() == self.data.key_seq(),
            forall|i: int|
                0 <= i < r.spec_len() ==> {
                    let cs = entry_containers(self.data.val_seq()[i]);
                    let t = #[trigger] r.val_seq()[i];
                    &&& t.api_url@ == self.data.val_seq()[i].api_url@
                    &&& t.cpu_samples@ == present(cpu_usages(cs))
                    &&& t.mem as int == opt_total(mem_usages(cs))
                    &&& t.mem_limit as int == opt_total(mem_limits(cs))
                    &&& t.containers_amount as int == count_true(enabled_flags(cs))
                },
    {
        let keys = clone_strings(&self.data.keys);
        let mut vals: Vec<VmTotals<C>> = Vec::new();
        let mut i: usize = 0;
        while i < self.data.len()
            invariant
                self.wf(),
                forall|j: int| 0 <= j < self.data.spec_len() ==> entry_totals_fit(#[trigger] self.data.val_seq()[j]),
                i <= self.data.spec_len(),
                vals@.len() == i,
                forall|j: int|
                    0 <= j < i ==> {
                        let cs = entry_containers(self.data.val_seq()[j]);
                        let t = #[trigger] vals@[j];
                        &&& t.api_url@ == self.data.val_seq()[j].api_url@
                        &&& t.cpu_samples@ == present(cpu_usages(cs))
                        &&& t.mem as int == opt_total(mem_usages(cs))
                        &&& t.mem_limit as int == opt_total(mem_limits(cs))
                        &&& t.containers_amount as int == count_true(enabled_flags(cs))
                    },
            decreases self.data.spec_len() - i,
        {
            proof {
                self.lemma_entry_wf(i as int);
            }
            vals.push(entry_totals(self.data.value_at(i)));
            i = i + 1;
        }
        StrMap { keys, vals }
    }

    /// The rows of the container list for the selected VMs: every container of
    /// every VM (VM by VM in name order, each row naming its VM), or the
    /// containers of the one selected VM (rows naming no VM; none when the VM
    /// is unknown).
    pub fn get_metrics_by_vm(&self, selected_vm: &SelectedVm) -> (r: Vec<(Option<String>, String, ContainerModel<C>)>)
        requires
            self.wf(),
        ensures
            r@.map_values(|x: (Option<String>, String, ContainerModel<C>)| row_view(x)) == match selected_vm {
                SelectedVm::All => all_rows(self.data.key_seq(), self.data.val_seq()),
                SelectedVm::SingleVm(vm) => if self.data@.contains_key(vm@) {
                    entry_rows(None, self.data@[vm@])
                } else {
                    Seq::empty()
                },
            },
            forall|i: int| 0 <= i < r@.len() ==> (#[trigger] r@[i]).2.wf(),
    {
        match selected_vm {
            SelectedVm::All => {
                let mut result: Vec<(Option<String>, String, ContainerModel<C>)> = Vec::new();
                let mut i: usize = 0;
                assert(self.data.key_seq().take(0) =~= Seq::<Seq<char>>::empty());
                while i < self.data.len()
                    invariant
                        self.wf(),
                        i <= self.data.spec_len(),
                        result@.map_values(|x: (Option<String>, String, ContainerModel<C>)| row_view(x))
                            == all_rows(self.data.key_seq().take(i as int), self.data.val_seq().take(i as int)),
                        forall|j: int| 0 <= j < result@.len() ==> (#[trigger] result@[j]).2.wf(),
                    decreases self.data.spec_len() - i,
                {
                    proof {
                        self.lemma_entry_wf(i as int);
                        assert(self.data.key_seq().take(i + 1).drop_last() =~= self.data.key_seq().take(i as int));
                        assert(self.data.val_seq().take(i + 1).drop_last() =~= self.data.val_seq().take(i as int));
                    }
                    let vm = self.data.key_at(i);
                    let wrapper = self.data.value_at(i);
                    self.push_rows(&mut result, Some(vm), wrapper);
                    i = i + 1;
                }
                assert(self.data.key_seq().take(self.data.spec_len() as int) =~= self.data.key_seq());
                assert(self.data.val_seq().take(self.data.spec_len() as int) =~= self.data.val_seq());
                result
            },
            SelectedVm::SingleVm(vm) => match self.data.get(vm.as_str()) {
                Some(wrapper) => {
                    proof {
                        self.data.lemma_index_of(vm@);
                        self.lemma_entry_wf(self.data.index_of(vm@));
                        self.data.lemma_lookup(self.data.index_of(vm@));
                    }
                    let mut result: Vec<(Option<String>, String, ContainerModel<C>)> = Vec::with_capacity(
                        wrapper.containers.len(),
                    );
                    assert(result@.map_values(|x: (Option<String>, String, ContainerModel<C>)| row_view(x)) =~= Seq::empty());
                    self.push_rows(&mut result, None, wrapper);
                    assert(Seq::<(Option<Seq<char>>, Seq<char>, CachedContainerView<C>)>::empty() + entry_rows(None, *wrapper) =~= entry_rows(None, *wrapper));
                    result
                },
                None => Vec::new(),
            },
        }
    }

    /// Appends the rows of one entry.
    fn push_rows(
        &self,
        result: &mut Vec<(Option<String>, String, ContainerModel<C>)>,
        vm: Option<&String>,
        wrapper: &ContainersWrapper<C>,
    )
        requires
            wrapper.wf(),
            forall|j: int| 0 <= j < old(result)@.len() ==> (#[trigger] old(result)@[j]).2.wf(),
        ensures
            final(result)@.map_values(|x: (Option<String>, String, ContainerModel<C>)| row_view(x))
                == old(result)@.map_values(|x: (Option<String>, String, ContainerModel<C>)| row_view(x))
                + entry_rows(
                match vm {
                    Some(v) => Some(v@),
                    None => None,
                },
                *wrapper,
            ),
            forall|j: int| 0 <= j < final(result)@.len() ==> (#[trigger] final(result)@[j]).2.wf(),
    {
        let ghost vmv = match vm {
            Some(v) => Some(v@),
            None => None::<Seq<char>>,
        };
        let ghost start = result@.map_values(|x: (Option<String>, String, ContainerModel<C>)| row_view(x));
        let ghost rows = entry_rows(vmv, *wrapper);
        let m = &wrapper.containers;
        let mut k: usize = 0;
        assert(rows.take(0) =~= Seq::<(Option<Seq<char>>, Seq<char>, CachedContainerView<C>)>::empty());
        assert(start + rows.take(0) =~= start);
        while k < m.len()
            invariant
                containers_wf(*m),
                wrapper.wf(),
                m == wrapper.containers,
                vmv == match vm {
                    Some(v) => Some(v@),
                    None => None::<Seq<char>>,
                },
                rows == entry_rows(vmv, *wrapper),
                k <= m.spec_len(),
                result@.map_values(|x: (Option<String>, String, ContainerModel<C>)| row_view(x)) == start + rows.take(k as int),
                forall|j: int| 0 <= j < result@.len() ==> (#[trigger] result@[j]).2.wf(),
            decreases m.spec_len() - k,
        {
            proof {
                m.lemma_lookup(k as int);
            }
            let itm = m.value_at(k);
            let vm_copy: Option<String> = match vm {
                Some(v) => {
                    let c = v.clone();
                    assert(vmv == Some(c@));
                    Some(c)
                },
                None => None,
            };
            let row = (vm_copy, wrapper.api_url.clone(), itm.clone());
            let ghost before = result@;
            result.push(row);
            proof {
                assert(*itm == m.val_seq()[k as int]);
                assert(entry_containers(*wrapper)[k as int] == itm@);
                assert(rows[k as int] == (vmv, wrapper.api_url@, itm@));
                assert(row.2@ == itm@);
                assert(row.1@ == wrapper.api_url@);
                assert(row_view(row).0 == vmv);
                assert(row_view(row) == rows[k as int]);
                assert(result@.map_values(|x: (Option<String>, String, ContainerModel<C>)| row_view(x)) =~= before.map_values(|x: (Option<String>, String, ContainerModel<C>)| row_view(x)).push(row_view(row)));
                assert(rows.take(k + 1) =~= rows.take(k as int).push(rows[k as int]));
                assert(start + rows.take(k + 1) =~= (start + rows.take(k as int)).push(rows[k as int]));
            }
            k = k + 1;
        }
        assert(rows.take(rows.len() as int) =~= rows);
    }
}

/// The value, or `default` when there is none.
pub open spec fn unwrap_or<T>(o: Option<T>, default: T) -> T {
    match o {
        Some(v) => v,
        None => default,
    }
}

/// The ids of a report.
pub open spec fn reported_ids<C: Copy>(s: Seq<ContainerJsonModel<C>>) -> Set<Seq<char>> {
    Set::new(|id: Seq<char>| exists|i: int| 0 <= i < s.len() && (#[trigger] s[i]).id@ == id)
}

/// The containers indexed by id are those of the report.
proof fn lemma_index_by_id_dom<C: Copy>(s: Seq<ContainerJsonModel<C>>)
    ensures
        index_by_id(s).dom() == reported_ids(s),
    decreases s.len(),
{
    if s.len() > 0 {
        let t = s.drop_last();
        lemma_index_by_id_dom(t);
        assert forall|id: Seq<char>| #[trigger] index_by_id(s).dom().contains(id) == reported_ids(s).contains(id) by {
            if reported_ids(s).contains(id) {
                let i = choose|i: int| 0 <= i < s.len() && (#[trigger] s[i]).id@ == id;
                if i < t.len() {
                    assert(t[i] == s[i]);
                    assert(reported_ids(t).contains(id));
                }
            }
            if reported_ids(t).contains(id) {
                let i = choose|i: int| 0 <= i < t.len() && (#[trigger] t[i]).id@ == id;
                assert(s[i] == t[i]);
            }
            if id == s.last().id@ {
                assert(s[s.len() - 1].id@ == id);
            }
        }
        assert(index_by_id(s).dom() =~= reported_ids(s));
    } else {
        assert(index_by_id(s).dom() =~= reported_ids(s));
    }
}

/// After a report of `vm`'s agent, the VM's entry holds exactly the reported
/// containers; a VM seen before keeps its agent's URL and a new one gets the
/// URL of the agent that reported it; every other VM is left as it was.
pub proof fn lemma_report_replaces_containers<C: Copy>(
    cache: Map<Seq<char>, VmEntryView<C>>,
    vm: Seq<char>,
    containers: Seq<ContainerJsonModel<C>>,
    api_url: Seq<char>,
)
    ensures
        cache_after_report(cache, vm, containers, api_url).contains_key(vm),
        cache_after_report(cache, vm, containers, api_url)[vm].containers.dom() == reported_ids(containers),
        cache_after_report(cache, vm, containers, api_url)[vm].api_url == if cache.contains_key(vm) {
            cache[vm].api_url
        } else {
            api_url
        },
        forall|v: Seq<char>|
            v != vm ==> (#[trigger] cache_after_report(cache, vm, containers, api_url).contains_key(v)
                == cache.contains_key(v)),
        forall|v: Seq<char>|
            v != vm && cache.contains_key(v) ==> #[trigger] cache_after_report(cache, vm, containers, api_url)[v]
                == cache[v],
{
    lemma_index_by_id_dom(containers);
    let after = cache_after_report(cache, vm, containers, api_url);
    assert(after[vm].containers.dom() =~= reported_ids(containers));
}

/// After a report, a container seen before has the reported CPU and memory
/// usage as its newest samples (when they were reported), and a container
/// first seen has no samples yet.
pub proof fn lemma_report_records_samples<C: Copy>(
    cache: Map<Seq<char>, VmEntryView<C>>,
    vm: Seq<char>,
    containers: Seq<ContainerJsonModel<C>>,
    api_url: Seq<char>,
    id: Seq<char>,
)
    requires
        index_by_id(containers).contains_key(id),
    ensures
        ({
            let after = cache_after_report(cache, vm, containers, api_url)[vm].containers[id];
            let reported = index_by_id(containers)[id];
            if cache.contains_key(vm) && cache[vm].containers.contains_key(id) {
                &&& (reported.cpu matches Some(x) ==> after.cpu_usage_history.last() == x)
                &&& (reported.mem.usage matches Some(x) ==> after.mem_usage_history.last() == x)
                &&& (reported.cpu is None ==> after.cpu_usage_history == cache[vm].containers[id].cpu_usage_history)
                &&& (reported.mem.usage is None ==> after.mem_usage_history
                    == cache[vm].containers[id].mem_usage_history)
            } else {
                &&& after.cpu_usage_history.len() == 0
                &&& after.mem_usage_history.len() == 0
            }
        }),
{
}

/// After a report, every reported container shows what the report says of it:
/// its CPU usage, memory figures, labels, image and whether it is enabled are
/// the reported ones, whether it was cached before or not; a container cached
/// before keeps its id and names, and a new one takes the reported ones.
pub proof fn lemma_report_takes_reported_fields<C: Copy>(
    cache: Map<Seq<char>, VmEntryView<C>>,
    vm: Seq<char>,
    containers: Seq<ContainerJsonModel<C>>,
    api_url: Seq<char>,
    id: Seq<char>,
)
    requires
        index_by_id(containers).contains_key(id),
    ensures
        cache_after_report(cache, vm, containers, api_url)[vm].containers.contains_key(id),
        ({
            let after = cache_after_report(cache, vm, containers, api_url)[vm].containers[id];
            let reported = index_by_id(containers)[id];
            &&& after.enabled == reported.enabled
            &&& after.cpu == reported.cpu
            &&& after.mem == reported.mem
            &&& after.labels == reported.labels
            &&& after.image == reported.image
            &&& if cache.contains_key(vm) && cache[vm].containers.contains_key(id) {
                &&& after.id == cache[vm].containers[id].id
                &&& after.names == cache[vm].containers[id].names
            } else {
                &&& after.id == reported.id
                &&& after.names == reported.names
            }
        }),
{
}

/// A container reported with the id `id` is the last container of the report
/// that has that id.
pub proof fn lemma_index_by_id_last<C: Copy>(containers: Seq<ContainerJsonModel<C>>, i: int)
    requires
        0 <= i < containers.len(),
        forall|j: int| i < j < containers.len() ==> (#[trigger] containers[j]).id@ != containers[i].id@,
    ensures
        index_by_id(containers).contains_key(containers[i].id@),
        index_by_id(containers)[containers[i].id@] == containers[i]@,
    decreases containers.len(),
{
    if i < containers.len() - 1 {
        let t = containers.drop_last();
        assert forall|j: int| i < j < t.len() implies (#[trigger] t[j]).id@ != t[i].id@ by {
            assert(t[j] == containers[j]);
        }
        lemma_index_by_id_last(t, i);
        assert(containers.last() == containers[containers.len() - 1]);
    }
}

/// The totals of a VM add up its containers: the memory total grows by each
/// present value and ignores a missing one, the CPU samples are the present
/// usages in order, and the number of enabled containers is the number of set
/// flags, never more than the number of containers.
pub proof fn lemma_totals_add_up<C>(
    mems: Seq<Option<i64>>,
    m: Option<i64>,
    cpus: Seq<Option<C>>,
    c: Option<C>,
    flags: Seq<bool>,
    f: bool,
)
    ensures
        opt_total(mems.push(m)) == opt_total(mems) + match m {
            Some(v) => v as int,
            None => 0,
        },
        opt_total(Seq::<Option<i64>>::empty()) == 0,
        present(cpus.push(c)) == match c {
            Some(v) => present(cpus).push(v),
            None => present(cpus),
        },
        present(Seq::<Option<C>>::empty()) == Seq::<C>::empty(),
        count_true(flags.push(f)) == count_true(flags) + if f {
            1int
        } else {
            0int
        },
        count_true(Seq::<bool>::empty()) == 0,
        count_true(flags) <= flags.len(),
    decreases flags.len(),
{
    assert(mems.push(m).drop_last() =~= mems);
    assert(cpus.push(c).drop_last() =~= cpus);
    assert(flags.push(f).drop_last() =~= flags);
    if flags.len() > 0 {
        lemma_totals_add_up(mems, m, cpus, c, flags.drop_last(), f);
    }
}

/// The rows of every VM: each row belongs to one VM of the cache (it names the
/// VM, carries its agent's URL and one of its containers), and every container
/// of every VM has its row.
pub proof fn lemma_all_rows_cover<C: Copy>(vms: Seq<Seq<char>>, ws: Seq<ContainersWrapper<C>>)
    requires
        vms.len() == ws.len(),
    ensures
        forall|r: (Option<Seq<char>>, Seq<char>, CachedContainerView<C>)|
            #[trigger] all_rows(vms, ws).contains(r) ==> exists|k: int|
                0 <= k < ws.len() && r.0 == Some(vms[k]) && r.1 == ws[k].api_url@ && #[trigger] entry_containers(
                    ws[k],
                ).contains(r.2),
        forall|k: int, j: int|
            0 <= k < ws.len() && 0 <= j < entry_containers(ws[k]).len() ==> all_rows(vms, ws).contains(
                (Some(vms[k]), ws[k].api_url@, #[trigger] entry_containers(ws[k])[j]),
            ),
    decreases ws.len(),
{
    if ws.len() > 0 {
        let pv = vms.drop_last();
        let pw = ws.drop_last();
        lemma_all_rows_cover(pv, pw);
        let a = all_rows(pv, pw);
        let last = ws.len() - 1;
        let b = entry_rows(Some(vms[last]), ws[last]);
        assert(all_rows(vms, ws) == a + b);
        assert forall|r: (Option<Seq<char>>, Seq<char>, CachedContainerView<C>)|
            #[trigger] all_rows(vms, ws).contains(r) implies exists|k: int|
                0 <= k < ws.len() && r.0 == Some(vms[k]) && r.1 == ws[k].api_url@ && #[trigger] entry_containers(
                    ws[k],
                ).contains(r.2) by {
            let i = choose|i: int| 0 <= i < (a + b).len() && (a + b)[i] == r;
            if i < a.len() {
                assert(a.contains(r));
                let k = choose|k: int|
                    0 <= k < pw.len() && r.0 == Some(pv[k]) && r.1 == pw[k].api_url@ && #[trigger] entry_containers(
                        pw[k],
                    ).contains(r.2);
                assert(pw[k] == ws[k] && pv[k] == vms[k]);
            } else {
                let j = i - a.len();
                assert(b[j] == r);
                assert(entry_containers(ws[last])[j] == r.2);
                assert(entry_containers(ws[last]).contains(r.2));
            }
        }
        assert forall|k: int, j: int|
            0 <= k < ws.len() && 0 <= j < entry_containers(ws[k]).len() implies all_rows(vms, ws).contains(
                (Some(vms[k]), ws[k].api_url@, #[trigger] entry_containers(ws[k])[j]),
            ) by {
            let r = (Some(vms[k]), ws[k].api_url@, entry_containers(ws[k])[j]);
            if k < last {
                assert(pw[k] == ws[k] && pv[k] == vms[k]);
                assert(a.contains((Some(pv[k]), pw[k].api_url@, entry_containers(pw[k])[j])));
                let i = choose|i: int| 0 <= i < a.len() && a[i] == r;
                assert((a + b)[i] == r);
            } else {
                assert(b[j] == r);
                assert((a + b)[a.len() + j] == r);
            }
        }
    }
}

/// Every sample history of the cache holds at most `METRICS_HISTORY_SIZE` samples.
pub open spec fn histories_within_window<C>(cache: Map<Seq<char>, VmEntryView<C>>) -> bool {
    forall|v: Seq<char>, id: Seq<char>|
        #[trigger] cache.contains_key(v) && #[trigger] cache[v].containers.contains_key(id) ==> {
            &&& cache[v].containers[id].cpu_usage_history.len() <= METRICS_HISTORY_SIZE
            &&& cache[v].containers[id].mem_usage_history.len() <= METRICS_HISTORY_SIZE
        }
}

/// A report never lets a sample history grow beyond `METRICS_HISTORY_SIZE`.
pub proof fn lemma_report_keeps_window<C: Copy>(
    cache: Map<Seq<char>, VmEntryView<C>>,
    vm: Seq<char>,
    containers: Seq<ContainerJsonModel<C>>,
    api_url: Seq<char>,
)
    requires
        histories_within_window(cache),
    ensures
        histories_within_window(cache_after_report(cache, vm, containers, api_url)),
{
    let after = cache_after_report(cache, vm, containers, api_url);
    assert forall|v: Seq<char>, id: Seq<char>|
        #[trigger] after.contains_key(v) && #[trigger] after[v].containers.contains_key(id) implies {
            &&& after[v].containers[id].cpu_usage_history.len() <= METRICS_HISTORY_SIZE
            &&& after[v].containers[id].mem_usage_history.len() <= METRICS_HISTORY_SIZE
        } by {
        if v != vm {
            assert(after[v] == cache[v]);
            assert(cache.contains_key(v) && cache[v].containers.contains_key(id));
        } else if cache.contains_key(vm) && cache[vm].containers.contains_key(id) {
            assert(cache.contains_key(vm) && cache[vm].containers.contains_key(id));
        }
    }
}

} // verus!