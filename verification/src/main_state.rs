use vstd::prelude::*;
use crate::models::{MetricsByVm, container_matches};
use crate::metrics_cache::VmTotals;
use crate::data_cache_by_env::RequestApiModel;
use crate::selected_vm::SelectedVm;
use crate::str_map::StrMap;
use crate::text::{compare_str, lex_lt, lex_le, TextOrder, lemma_lex_lt_total, lemma_lex_lt_transitive,
    lemma_lex_lt_irreflexive};

verus! {

/// The image of a row's container.
pub open spec fn image_of<C: Copy>(m: MetricsByVm<C>) -> Seq<char> {
    m.container.image@
}

/// Whether a row's container matches the filter text.
pub open spec fn row_matches<C: Copy>(m: MetricsByVm<C>, filter: Seq<char>) -> bool {
    container_matches(m.container@.id, m.container@.image, m.container@.names, m.container@.labels, filter)
}

/// The rows whose containers match the filter text, in their order.
pub open spec fn matching_rows<C: Copy>(rows: Seq<MetricsByVm<C>>, filter: Seq<char>) -> Seq<MetricsByVm<C>> {
    rows.filter(|m: MetricsByVm<C>| row_matches(m, filter))
}

/// The rows that a sequence of references points to.
pub open spec fn refs_view<C: Copy>(v: Seq<&MetricsByVm<C>>) -> Seq<MetricsByVm<C>> {
    v.map_values(|x: &MetricsByVm<C>| *x)
}

/// `r` holds the first `n` rows of `s`, row `i` of `r` being row `p[i]` of
/// `s`, ordered by image, and rows with equal images keep their order in `s`.
pub open spec fn orders_by_image<C: Copy>(r: Seq<MetricsByVm<C>>, p: Seq<int>, s: Seq<MetricsByVm<C>>, n: int) -> bool {
    &&& r.len() == n
    &&& p.len() == n
    &&& n <= s.len()
    &&& forall|i: int| 0 <= i < n ==> 0 <= #[trigger] p[i] < n && r[i] == s[p[i]]
    &&& forall|i: int, j: int| 0 <= i < j < n ==> p[i] != p[j]
    &&& forall|i: int, j: int| 0 <= i < j < n ==> lex_le(image_of(#[trigger] r[i]), image_of(#[trigger] r[j]))
    &&& forall|i: int, j: int|
        0 <= i < j < n && image_of(#[trigger] r[i]) == image_of(#[trigger] r[j]) ==> p[i] < p[j]
}

/// `r` is `s` sorted by image with a stable sort.
pub open spec fn stable_sorted_by_image<C: Copy>(r: Seq<MetricsByVm<C>>, s: Seq<MetricsByVm<C>>) -> bool {
    exists|p: Seq<int>| orders_by_image(r, p, s, s.len() as int)
}

/// Inserting row `k` of `s` at the first place whose image is greater than its
/// own keeps the order of the first `k` rows.
proof fn lemma_insert_by_image<C: Copy>(r: Seq<MetricsByVm<C>>, p: Seq<int>, s: Seq<MetricsByVm<C>>, k: int, pos: int)
    requires
        orders_by_image(r, p, s, k),
        k < s.len(),
        0 <= pos <= k,
        forall|i: int| 0 <= i < pos ==> !lex_lt(image_of(s[k]), image_of(#[trigger] r[i])),
        pos < k ==> lex_lt(image_of(s[k]), image_of(r[pos])),
    ensures
        orders_by_image(r.insert(pos, s[k]), p.insert(pos, k), s, k + 1),
{
    let x = s[k];
    let r2 = r.insert(pos, x);
    let p2 = p.insert(pos, k);
    assert forall|i: int| 0 <= i < k + 1 implies 0 <= #[trigger] p2[i] < k + 1 && r2[i] == s[p2[i]] by {
        if i < pos {
            assert(p2[i] == p[i]);
        } else if i > pos {
            assert(p2[i] == p[i - 1]);
        }
    }
    assert forall|i: int, j: int| 0 <= i < j < k + 1 implies p2[i] != p2[j] by {
        if i < pos && j > pos {
            assert(p2[j] == p[j - 1]);
        } else if i > pos {
            assert(p2[i] == p[i - 1] && p2[j] == p[j - 1]);
        } else if i == pos {
            assert(p2[j] == p[j - 1]);
            assert(0 <= p[j - 1] < k);
        } else if j == pos {
            assert(0 <= p[i] < k);
        }
    }
    assert forall|i: int, j: int| 0 <= i < j < k + 1 implies lex_le(image_of(#[trigger] r2[i]), image_of(#[trigger] r2[j])) by {
        if j < pos {
            assert(r2[i] == r[i] && r2[j] == r[j]);
        } else if j == pos {
            assert(r2[i] == r[i]);
            assert(!lex_lt(image_of(x), image_of(r[i])));
            if image_of(r[i]) != image_of(x) {
                lemma_lex_lt_total(image_of(r[i]), image_of(x));
            }
        } else if i == pos {
            assert(r2[j] == r[j - 1]);
            if j - 1 > pos {
                assert(lex_le(image_of(r[pos]), image_of(r[j - 1])));
                if image_of(r[pos]) != image_of(r[j - 1]) {
                    lemma_lex_lt_transitive(image_of(x), image_of(r[pos]), image_of(r[j - 1]));
                }
            }
        } else if i < pos {
            assert(r2[i] == r[i] && r2[j] == r[j - 1]);
        } else {
            assert(r2[i] == r[i - 1] && r2[j] == r[j - 1]);
        }
    }
    assert forall|i: int, j: int|
        0 <= i < j < k + 1 && image_of(#[trigger] r2[i]) == image_of(#[trigger] r2[j]) implies p2[i] < p2[j] by {
        if j < pos {
            assert(r2[i] == r[i] && r2[j] == r[j]);
        } else if j == pos {
            assert(0 <= p[i] < k);
        } else if i == pos {
            assert(r2[j] == r[j - 1]);
            if j - 1 > pos {
                assert(lex_le(image_of(r[pos]), image_of(r[j - 1])));
                if image_of(r[pos]) != image_of(r[j - 1]) {
                    lemma_lex_lt_transitive(image_of(x), image_of(r[pos]), image_of(r[j - 1]));
                }
            }
            lemma_lex_lt_irreflexive(image_of(x));
        } else if i < pos {
            assert(r2[i] == r[i] && r2[j] == r[j - 1]);
        } else {
            assert(r2[i] == r[i - 1] && r2[j] == r[j - 1]);
        }
    }
}

/// The first place in `sorted` whose image is greater than `key`.
fn insert_position<C: Copy>(sorted: &Vec<&MetricsByVm<C>>, key: &str) -> (pos: usize)
    ensures
        pos <= sorted@.len(),
        forall|i: int| 0 <= i < pos ==> !lex_lt(key@, image_of(*#[trigger] sorted@[i])),
        pos < sorted@.len() ==> lex_lt(key@, image_of(*sorted@[pos as int])),
{
    let mut i: usize = 0;
    while i < sorted.len()
        invariant
            i <= sorted@.len(),
            forall|j: int| 0 <= j < i ==> !lex_lt(key@, image_of(*#[trigger] sorted@[j])),
        decreases sorted@.len() - i,
    {
        match compare_str(key, sorted[i].container.image.as_str()) {
            TextOrder::Less => {
                return i;
            },
            _ => {},
        }
        i = i + 1;
    }
    i
}

/// Sorts rows by image, keeping rows with equal images in their order.
pub fn sort_by_image<'a, C: Copy>(items: Vec<&'a MetricsByVm<C>>) -> (r: Vec<&'a MetricsByVm<C>>)
    ensures
        stable_sorted_by_image(refs_view(r@), refs_view(items@)),
{
    let ghost s = refs_view(items@);
    let ghost mut p: Seq<int> = Seq::empty();
    let mut result: Vec<&'a MetricsByVm<C>> = Vec::new();
    let n = items.len();
    let mut k: usize = 0;
    assert(orders_by_image(refs_view(result@), p, s, 0));
    while k < n
        invariant
            n == items@.len(),
            s == refs_view(items@),
            k <= n,
            orders_by_image(refs_view(result@), p, s, k as int),
        decreases n - k,
    {
        let x = items[k];
        let pos = insert_position(&result, x.container.image.as_str());
        proof {
            let rv = refs_view(result@);
            assert forall|i: int| 0 <= i < pos implies !lex_lt(image_of(s[k as int]), image_of(#[trigger] rv[i])) by {
                assert(rv[i] == *result@[i]);
            }
            lemma_insert_by_image(rv, p, s, k as int, pos as int);
        }
        let ghost before = refs_view(result@);
        result.insert(pos, x);
        proof {
            assert(refs_view(result@) =~= before.insert(pos as int, s[k as int]));
            p = p.insert(pos as int, k as int);
        }
        k = k + 1;
    }
    result
}

/// An empty filter text shows every row, in order.
pub proof fn lemma_empty_filter_shows_all<C: Copy>(rows: Seq<MetricsByVm<C>>)
    ensures
        matching_rows(rows, Seq::<char>::empty()) == rows,
    decreases rows.len(),
{
    if rows.len() > 0 {
        let t = rows.drop_last();
        lemma_empty_filter_shows_all(t);
        t.lemma_filter_push(rows.last(), |m: MetricsByVm<C>| row_matches(m, Seq::<char>::empty()));
        assert(t.push(rows.last()) =~= rows);
    } else {
        assert(matching_rows(rows, Seq::<char>::empty()) =~= rows) by {
            reveal(Seq::filter);
        }
    }
}

/// Once a single VM is selected, the selection names that VM and no other,
/// and it is not the selection of every VM.
pub proof fn lemma_single_selection(name: String, other: Seq<char>)
    ensures
        SelectedVm::SingleVm(name).is_single_named(name@),
        other != name@ ==> !SelectedVm::SingleVm(name).is_single_named(other),
        !SelectedVm::SingleVm(name).is_all_spec(),
{
}

/// The state of the dashboard's page: the selected environment, the totals of
/// its VMs, the VM selection, the rows of the container list and the filter
/// text, and counters that tell a changed selection from an old answer.
pub struct MainState<C: Copy> {
    pub selected_env: Option<String>,
    pub vms_state: Option<StrMap<VmTotals<C>>>,
    pub state_no: usize,
    pub data_request_no: i32,
    pub selected_vm: Option<SelectedVm>,
    pub containers: Option<Vec<MetricsByVm<C>>>,
    pub filter: String,
    pub dialog_is_shown: bool,
    pub prompt_pass_key: bool,
}

impl<C: Copy> MainState<C> {
    pub open spec fn selected_vm_view(&self) -> Option<SelectedVm> {
        self.selected_vm
    }

    pub open spec fn containers_view(&self) -> Option<Seq<MetricsByVm<C>>> {
        match self.containers {
            Some(v) => Some(v@),
            None => None,
        }
    }

    pub open spec fn filter_view(&self) -> Seq<char> {
        self.filter@
    }

    /// The labels of every stored container are kept sorted by key.
    pub open spec fn wf(&self) -> bool {
        self.containers matches Some(v) ==> forall|i: int| 0 <= i < v@.len() ==> (#[trigger] v@[i]).container.wf()
    }

    pub fn new() -> (r: Self)
        ensures
            r.wf(),
            r.selected_env is None,
            r.vms_state is None,
            r.state_no == 0,
            r.data_request_no == 0,
            r.selected_vm_view() is None,
            r.containers_view() is None,
            r.filter_view() == Seq::<char>::empty(),
            !r.dialog_is_shown,
            !r.prompt_pass_key,
    {
        MainState {
            selected_vm: None,
            containers: None,
            filter: String::new(),
            state_no: 0,
            dialog_is_shown: false,
            data_request_no: 0,
            vms_state: None,
            prompt_pass_key: false,
            selected_env: None,
        }
    }

    /// Selects a VM (or every VM): the rows of the previous selection are
    /// dropped and the state number moves on.
    pub fn set_selected_vm(&mut self, selected_vm: SelectedVm)
        requires
            old(self).state_no < usize::MAX,
        ensures
            final(self).wf(),
            final(self).selected_vm_view() == Some(selected_vm),
            final(self).containers_view() is None,
            final(self).state_no == old(self).state_no + 1,
            final(self).filter_view() == old(self).filter_view(),
            final(self).selected_env == old(self).selected_env,
            final(self).vms_state == old(self).vms_state,
            final(self).data_request_no == old(self).data_request_no,
            final(self).dialog_is_shown == old(self).dialog_is_shown,
            final(self).prompt_pass_key == old(self).prompt_pass_key,
    {
        self.selected_vm = Some(selected_vm);
        self.containers = None;
        self.state_no = self.state_no + 1;
    }

    /// Whether exactly the VM named `vm` is selected.
    pub fn is_single_vm_selected(&self, vm: &str) -> (r: bool)
        ensures
            r == (self.selected_vm_view() matches Some(s) && s.is_single_named(vm@)),
    {
        match self.selected_vm.as_ref() {
            Some(value) => value.is_single_selected_with_name(vm),
            None => false,
        }
    }

    /// Whether every VM is selected.
    pub fn is_all_vms_selected(&self) -> (r: bool)
        ensures
            r == (self.selected_vm_view() matches Some(s) && s.is_all_spec()),
    {
        match self.selected_vm.as_ref() {
            Some(value) => value.is_all(),
            None => false,
        }
    }

    /// The selected environment and the VM selection.
    pub fn get_selected_vm(&self) -> (r: (String, Option<SelectedVm>))
        requires
            self.selected_env is Some,
        ensures
            r.0@ == self.selected_env->0@,
            r.1 == self.selected_vm_view(),
    {
        let selected_env = match &self.selected_env {
            Some(env) => env.clone(),
            None => String::new(),
        };
        let selected_vm = match &self.selected_vm {
            Some(v) => Some(v.clone()),
            None => None,
        };
        (selected_env, selected_vm)
    }

    /// The rows whose containers match the filter, sorted by image (rows with
    /// equal images in their stored order); nothing before rows were stored.
    pub fn get_containers(&self) -> (r: Option<Vec<&MetricsByVm<C>>>)
        requires
            self.wf(),
        ensures
            r is None <==> self.containers_view() is None,
            r matches Some(v) ==> stable_sorted_by_image(
                refs_view(v@),
                matching_rows(self.containers_view()->0, self.filter_view()),
            ),
    {
        let items = match &self.containers {
            Some(v) => v,
            None => {
                return None;
            },
        };
        let ghost all = items@;
        let ghost f = self.filter@;
        let mut filtered: Vec<&MetricsByVm<C>> = Vec::new();
        let mut i: usize = 0;
        assert(all.take(0) =~= Seq::<MetricsByVm<C>>::empty());
        assert(refs_view(filtered@) =~= matching_rows(all.take(0), f)) by {
            reveal(Seq::filter);
        }
        while i < items.len()
            invariant
                self.wf(),
                self.containers == Some(*items),
                all == items@,
                f == self.filter@,
                i <= all.len(),
                refs_view(filtered@) == matching_rows(all.take(i as int), f),
            decreases all.len() - i,
        {
            let item = &items[i];
            let keep = item.container.filter_me(self.filter.as_str());
            let ghost before = refs_view(filtered@);
            proof {
                assert(all.take(i + 1) =~= all.take(i as int).push(all[i as int]));
                all.take(i as int).lemma_filter_push(all[i as int], |m: MetricsByVm<C>| row_matches(m, f));
            }
            if keep {
                filtered.push(item);
                assert(refs_view(filtered@) =~= before.push(*item));
            }
            i = i + 1;
        }
        assert(all.take(all.len() as int) =~= all);
        Some(sort_by_image(filtered))
    }

    /// Takes the server's answer for the current selection: the totals of the
    /// VMs always, the rows of the container list when the answer has them.
    pub fn apply_answer(&mut self, answer: RequestApiModel<C>)
        requires
            old(self).wf(),
            answer.metrics matches Some(m) ==> forall|i: int|
                0 <= i < m@.len() ==> (#[trigger] m@[i]).container.wf(),
        ensures
            final(self).wf(),
            final(self).vms_state == Some(answer.vms),
            final(self).containers_view() == match answer.metrics {
                Some(m) => Some(m@),
                None => old(self).containers_view(),
            },
            final(self).selected_vm_view() == old(self).selected_vm_view(),
            final(self).filter_view() == old(self).filter_view(),
            final(self).selected_env == old(self).selected_env,
            final(self).state_no == old(self).state_no,
            final(self).data_request_no == old(self).data_request_no,
            final(self).dialog_is_shown == old(self).dialog_is_shown,
            final(self).prompt_pass_key == old(self).prompt_pass_key,
    {
        self.vms_state = Some(answer.vms);
        if let Some(metrics) = answer.metrics {
            self.set_containers(metrics);
        }
    }

    /// Stores the rows of the container list.
    pub fn set_containers(&mut self, containers: Vec<MetricsByVm<C>>)
        requires
            forall|i: int| 0 <= i < containers@.len() ==> (#[trigger] containers@[i]).container.wf(),
        ensures
            final(self).wf(),
            final(self).containers_view() == Some(containers@),
            final(self).selected_vm_view() == old(self).selected_vm_view(),
            final(self).filter_view() == old(self).filter_view(),
            final(self).selected_env == old(self).selected_env,
            final(self).vms_state == old(self).vms_state,
            final(self).state_no == old(self).state_no,
            final(self).data_request_no == old(self).data_request_no,
            final(self).dialog_is_shown == old(self).dialog_is_shown,
            final(self).prompt_pass_key == old(self).prompt_pass_key,
    {
        self.containers = Some(containers);
    }

    /// Sets the filter text.
    pub fn set_filter(&mut self, value: String)
        requires
            old(self).wf(),
        ensures
            final(self).wf(),
            final(self).filter_view() == value@,
            final(self).containers_view() == old(self).containers_view(),
            final(self).selected_vm_view() == old(self).selected_vm_view(),
            final(self).selected_env == old(self).selected_env,
            final(self).vms_state == old(self).vms_state,
            final(self).state_no == old(self).state_no,
            final(self).data_request_no == old(self).data_request_no,
            final(self).dialog_is_shown == old(self).dialog_is_shown,
            final(self).prompt_pass_key == old(self).prompt_pass_key,
    {
        self.filter = value;
    }

    /// The filter text.
    pub fn get_filter(&self) -> (r: &str)
        ensures
            r@ == self.filter_view(),
    {
        self.filter.as_str()
    }
}

} // verus!
