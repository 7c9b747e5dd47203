use vstd::prelude::*;
use crate::metrics_cache::{VmTotals, opt_total, running_totals_fit, running_totals_fit_exec};
use crate::models::MetricsByVm;
use crate::main_state::refs_view;
use crate::str_map::StrMap;

verus! {

/// Whether a row is listed: disabled containers are listed only when asked for.
pub open spec fn row_listed<C: Copy>(m: MetricsByVm<C>, show_disabled: bool) -> bool {
    show_disabled || m.container.enabled
}

/// The rows that are listed, in order.
pub fn listed_rows<'a, C: Copy>(rows: &Vec<&'a MetricsByVm<C>>, show_disabled: bool) -> (r: Vec<&'a MetricsByVm<C>>)
    ensures
        refs_view(r@) == refs_view(rows@).filter(|m: MetricsByVm<C>| row_listed(m, show_disabled)),
{
    let ghost all = refs_view(rows@);
    let mut result: Vec<&'a MetricsByVm<C>> = Vec::new();
    let mut i: usize = 0;
    assert(all.take(0) =~= Seq::<MetricsByVm<C>>::empty());
    assert(refs_view(result@) =~= all.take(0).filter(|m: MetricsByVm<C>| row_listed(m, show_disabled))) by {
        reveal(Seq::filter);
    }
    while i < rows.len()
        invariant
            all == refs_view(rows@),
            i <= all.len(),
            refs_view(result@) == all.take(i as int).filter(|m: MetricsByVm<C>| row_listed(m, show_disabled)),
        decreases all.len() - i,
    {
        let row = rows[i];
        let ghost before = refs_view(result@);
        proof {
            assert(all.take(i + 1) =~= all.take(i as int).push(all[i as int]));
            all.take(i as int).lemma_filter_push(all[i as int], |m: MetricsByVm<C>| row_listed(m, show_disabled));
        }
        if show_disabled || row.container.enabled {
            result.push(row);
            assert(refs_view(result@) =~= before.push(*row));
        }
        i = i + 1;
    }
    assert(all.take(all.len() as int) =~= all);
    result
}

/// The color of a row: black for an enabled container, light gray otherwise.
pub fn row_color(enabled: bool) -> (r: &'static str)
    ensures
        r@ == (if enabled {
            "black"@
        } else {
            "lightgray"@
        }),
{
    if enabled {
        "black"
    } else {
        "lightgray"
    }
}

/// The memory usages of the VMs, as values to add up.
pub open spec fn vm_mems<C: Copy>(vs: Seq<VmTotals<C>>) -> Seq<Option<i64>> {
    vs.map_values(|t: VmTotals<C>| Some(t.mem))
}

/// The memory limits of the VMs, as values to add up.
pub open spec fn vm_mem_limits<C: Copy>(vs: Seq<VmTotals<C>>) -> Seq<Option<i64>> {
    vs.map_values(|t: VmTotals<C>| Some(t.mem_limit))
}

/// The number of enabled containers of all the VMs.
pub open spec fn amount_total<C: Copy>(vs: Seq<VmTotals<C>>) -> int
    decreases vs.len(),
{
    if vs.len() == 0 {
        0
    } else {
        amount_total(vs.drop_last()) + vs.last().containers_amount
    }
}

/// The CPU samples of all the VMs, VM after VM.
pub open spec fn all_cpu_samples<C: Copy>(vs: Seq<VmTotals<C>>) -> Seq<C>
    decreases vs.len(),
{
    if vs.len() == 0 {
        Seq::empty()
    } else {
        all_cpu_samples(vs.drop_last()) + vs.last().cpu_samples@
    }
}

/// The totals of every VM can be added up: the running memory sums fit in an
/// `i64`, and the number of containers in a `usize`.
pub open spec fn all_vms_fit<C: Copy>(vs: Seq<VmTotals<C>>) -> bool {
    &&& running_totals_fit(vm_mems(vs))
    &&& running_totals_fit(vm_mem_limits(vs))
    &&& amount_total(vs) <= usize::MAX
}

proof fn lemma_amount_total_monotone<C: Copy>(vs: Seq<VmTotals<C>>, k: int)
    requires
        0 <= k <= vs.len(),
    ensures
        0 <= amount_total(vs.take(k)) <= amount_total(vs),
    decreases vs.len(),
{
    if vs.len() > 0 {
        if k == vs.len() {
            assert(vs.take(k) =~= vs);
            lemma_amount_total_monotone(vs.drop_last(), k - 1);
            assert(vs.drop_last().take(k - 1) =~= vs.drop_last());
        } else {
            lemma_amount_total_monotone(vs.drop_last(), k);
            assert(vs.drop_last().take(k) =~= vs.take(k));
        }
    } else {
        assert(vs.take(k) =~= vs);
    }
}

/// Whether the totals of every VM can be added up.
pub fn all_vms_totals_fit<C: Copy>(vms: &StrMap<VmTotals<C>>) -> (r: bool)
    requires
        vms.wf(),
    ensures
        r == all_vms_fit(vms.val_seq()),
{
    let ghost vs = vms.val_seq();
    let mut mems: Vec<Option<i64>> = Vec::new();
    let mut limits: Vec<Option<i64>> = Vec::new();
    let mut amount: u128 = 0;
    let mut i: usize = 0;
    while i < vms.len()
        invariant
            vms.wf(),
            vs == vms.val_seq(),
            i <= vs.len(),
            mems@ == vm_mems(vs).take(i as int),
            limits@ == vm_mem_limits(vs).take(i as int),
            amount == amount_total(vs.take(i as int)),
            amount <= i * 0x1_0000_0000_0000_0000,
        decreases vs.len() - i,
    {
        let t = vms.value_at(i);
        mems.push(Some(t.mem));
        limits.push(Some(t.mem_limit));
        assert(vs.take(i + 1).drop_last() =~= vs.take(i as int));
        amount = amount + t.containers_amount as u128;
        assert(mems@ =~= vm_mems(vs).take(i + 1));
        assert(limits@ =~= vm_mem_limits(vs).take(i + 1));
        i = i + 1;
    }
    assert(vs.take(vs.len() as int) =~= vs);
    assert(vm_mems(vs).take(vs.len() as int) =~= vm_mems(vs));
    assert(vm_mem_limits(vs).take(vs.len() as int) =~= vm_mem_limits(vs));
    running_totals_fit_exec(&mems) && running_totals_fit_exec(&limits) && amount <= usize::MAX as u128
}

/// The totals of every VM together, as the "All VMs" entry shows them: no
/// agent URL, the CPU samples of all the VMs, and the sums of the memory
/// usages, memory limits and enabled containers.
pub fn all_vms_totals<C: Copy>(vms: &StrMap<VmTotals<C>>) -> (r: VmTotals<C>)
    requires
        vms.wf(),
        all_vms_fit(vms.val_seq()),
    ensures
        r.api_url@ == Seq::<char>::empty(),
        r.cpu_samples@ == all_cpu_samples(vms.val_seq()),
        r.mem as int == opt_total(vm_mems(vms.val_seq())),
        r.mem_limit as int == opt_total(vm_mem_limits(vms.val_seq())),
        r.containers_amount as int == amount_total(vms.val_seq()),
{
    let ghost vs = vms.val_seq();
    let mut cpu: Vec<C> = Vec::new();
    let mut mem: i64 = 0;
    let mut mem_limit: i64 = 0;
    let mut amount: usize = 0;
    let mut i: usize = 0;
    assert(vs.take(0) =~= Seq::<VmTotals<C>>::empty());
    assert(vm_mems(vs).take(0) =~= Seq::<Option<i64>>::empty());
    assert(vm_mem_limits(vs).take(0) =~= Seq::<Option<i64>>::empty());
    while i < vms.len()
        invariant
            vms.wf(),
            vs == vms.val_seq(),
            all_vms_fit(vs),
            i <= vs.len(),
            cpu@ == all_cpu_samples(vs.take(i as int)),
            mem as int == opt_total(vm_mems(vs).take(i as int)),
            mem_limit as int == opt_total(vm_mem_limits(vs).take(i as int)),
            amount as int == amount_total(vs.take(i as int)),
        decreases vs.len() - i,
    {
        let t = vms.value_at(i);
        proof {
            assert(vs.take(i + 1).drop_last() =~= vs.take(i as int));
            assert(vm_mems(vs).take(i + 1).drop_last() =~= vm_mems(vs).take(i as int));
            assert(vm_mem_limits(vs).take(i + 1).drop_last() =~= vm_mem_limits(vs).take(i as int));
            assert(vm_mems(vs).take(i + 1).last() == Some(t.mem));
            assert(vm_mem_limits(vs).take(i + 1).last() == Some(t.mem_limit));
            assert(i64::MIN <= opt_total(vm_mems(vs).take(i + 1)) <= i64::MAX);
            assert(i64::MIN <= opt_total(vm_mem_limits(vs).take(i + 1)) <= i64::MAX);
            lemma_amount_total_monotone(vs, i + 1);
        }
        let mut k: usize = 0;
        let ghost start = cpu@;
        while k < t.cpu_samples.len()
            invariant
                k <= t.cpu_samples@.len(),
                cpu@ == start + t.cpu_samples@.take(k as int),
            decreases t.cpu_samples@.len() - k,
        {
            cpu.push(t.cpu_samples[k]);
            assert(start + t.cpu_samples@.take(k + 1) =~= (start + t.cpu_samples@.take(k as int)).push(
                t.cpu_samples@[k as int],
            ));
            k = k + 1;
        }
        assert(t.cpu_samples@.take(t.cpu_samples@.len() as int) =~= t.cpu_samples@);
        mem = mem + t.mem;
        mem_limit = mem_limit + t.mem_limit;
        amount = amount + t.containers_amount;
        i = i + 1;
    }
    assert(vs.take(vs.len() as int) =~= vs);
    assert(vm_mems(vs).take(vs.len() as int) =~= vm_mems(vs));
    assert(vm_mem_limits(vs).take(vs.len() as int) =~= vm_mem_limits(vs));
    VmTotals { api_url: String::new(), cpu_samples: cpu, mem, mem_limit, containers_amount: amount }
}

} // verus!
