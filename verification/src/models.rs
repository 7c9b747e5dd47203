use vstd::prelude::*;
use crate::str_map::{StrMap, str_entries};
use crate::text::{contains_seq, text_lower, is_ascii_text, ascii_lowercase, occurs_at, strs_view, str_contains, to_lowercase, clone_strings};

verus! {

/// CPU usage that an agent reports for a container; `C` is the type of a CPU
/// usage sample (a floating-point number in the application).
pub struct CpuUsageJsonMode<C: Copy> {
    pub usage: Option<C>,
}

impl<C: Copy> Clone for CpuUsageJsonMode<C> {
    fn clone(&self) -> (r: Self)
        ensures
            r == *self,
    {
        CpuUsageJsonMode { usage: self.usage }
    }
}

/// Memory figures that an agent reports for a container, in bytes.
#[derive(Clone, Copy)]
pub struct MemUsageJsonMode {
    pub usage: Option<i64>,
    pub available: Option<i64>,
    pub limit: Option<i64>,
}

/// The labels of a container, as pairs of character sequences in key order.
pub open spec fn labels_view(labels: Option<StrMap<String>>) -> Option<Seq<(Seq<char>, Seq<char>)>> {
    match labels {
        Some(m) => Some(str_entries(m)),
        None => None,
    }
}

pub open spec fn labels_wf(labels: Option<StrMap<String>>) -> bool {
    labels matches Some(m) ==> m.wf()
}

/// `field`, lowercased, contains `lowered`.
pub open spec fn lower_contains(field: Seq<char>, lowered: Seq<char>) -> bool {
    contains_seq(text_lower(field), lowered)
}

/// Whether a container matches the filter text `value`: an empty filter matches
/// every container; otherwise the id must contain the text as given, or the
/// image, a name, a label key or a label value must contain it, compared in
/// lowercase.
pub open spec fn container_matches(
    id: Seq<char>,
    image: Seq<char>,
    names: Seq<Seq<char>>,
    labels: Option<Seq<(Seq<char>, Seq<char>)>>,
    value: Seq<char>,
) -> bool {
    let lv = text_lower(value);
    ||| value.len() == 0
    ||| contains_seq(id, value)
    ||| lower_contains(image, lv)
    ||| exists|i: int| 0 <= i < names.len() && lower_contains(#[trigger] names[i], lv)
    ||| (labels matches Some(ls) && exists|i: int|
        0 <= i < ls.len() && (lower_contains((#[trigger] ls[i]).0, lv) || lower_contains(ls[i].1, lv)))
}

/// What a filter text matches: the empty text matches every container; the
/// text matches a container whose id contains it as typed, and one whose
/// image, one of whose names, or one of whose label keys or values contains it
/// once both are lowercased; it matches nothing else.
pub proof fn lemma_filter_matches_fields(
    id: Seq<char>,
    image: Seq<char>,
    names: Seq<Seq<char>>,
    labels: Option<Seq<(Seq<char>, Seq<char>)>>,
    value: Seq<char>,
    i: int,
)
    ensures
        value.len() == 0 ==> container_matches(id, image, names, labels, value),
        contains_seq(id, value) ==> container_matches(id, image, names, labels, value),
        contains_seq(text_lower(image), text_lower(value)) ==> container_matches(id, image, names, labels, value),
        0 <= i < names.len() && contains_seq(text_lower(names[i]), text_lower(value)) ==> container_matches(
            id,
            image,
            names,
            labels,
            value,
        ),
        labels matches Some(ls) && 0 <= i < ls.len() && (contains_seq(text_lower(ls[i].0), text_lower(value))
            || contains_seq(text_lower(ls[i].1), text_lower(value))) ==> container_matches(
            id,
            image,
            names,
            labels,
            value,
        ),
        container_matches(id, image, names, labels, value) ==> value.len() == 0 || contains_seq(id, value)
            || contains_seq(text_lower(image), text_lower(value)) || (exists|k: int|
            0 <= k < names.len() && contains_seq(text_lower(#[trigger] names[k]), text_lower(value))) || (
        labels matches Some(ls) && exists|k: int|
            0 <= k < ls.len() && (contains_seq(text_lower((#[trigger] ls[k]).0), text_lower(value))
                || contains_seq(text_lower(ls[k].1), text_lower(value)))),
{
    if 0 <= i < names.len() && contains_seq(text_lower(names[i]), text_lower(value)) {
        assert(lower_contains(names[i], text_lower(value)));
    }
    if labels is Some {
        let ls = labels->0;
        if 0 <= i < ls.len() {
            assert(lower_contains(ls[i].0, text_lower(value)) == contains_seq(text_lower(ls[i].0), text_lower(value)));
        }
    }
}

/// Text contained in text contained in `a` is contained in `a`.
proof fn lemma_contains_transitive(a: Seq<char>, b: Seq<char>, c: Seq<char>)
    requires
        contains_seq(a, b),
        contains_seq(b, c),
    ensures
        contains_seq(a, c),
{
    let i = choose|i: int| occurs_at(a, b, i);
    let j = choose|j: int| occurs_at(b, c, j);
    assert(a.subrange(i + j, i + j + c.len()) =~= c) by {
        assert forall|k: int| 0 <= k < c.len() implies a.subrange(i + j, i + j + c.len())[k] == c[k] by {
            assert(b.subrange(j, j + c.len())[k] == b[j + k]);
            assert(a.subrange(i, i + b.len())[j + k] == a[i + j + k]);
        }
    }
    assert(occurs_at(a, c, i + j));
}

/// Lowercasing ASCII text keeps what it contains.
proof fn lemma_ascii_lowercase_contains(s: Seq<char>, t: Seq<char>)
    requires
        contains_seq(s, t),
    ensures
        contains_seq(ascii_lowercase(s), ascii_lowercase(t)),
{
    let i = choose|i: int| occurs_at(s, t, i);
    assert(ascii_lowercase(s).subrange(i, i + t.len()) =~= ascii_lowercase(t)) by {
        assert forall|k: int| 0 <= k < t.len() implies ascii_lowercase(s).subrange(i, i + t.len())[k]
            == ascii_lowercase(t)[k] by {
            assert(s.subrange(i, i + t.len())[k] == s[i + k]);
        }
    }
    assert(occurs_at(ascii_lowercase(s), ascii_lowercase(t), i));
}

/// Shortening an ASCII filter text never hides a container: a container that
/// matches a filter text also matches every text that the filter contains.
pub proof fn lemma_shorter_filter_keeps_match(
    id: Seq<char>,
    image: Seq<char>,
    names: Seq<Seq<char>>,
    labels: Option<Seq<(Seq<char>, Seq<char>)>>,
    s: Seq<char>,
    t: Seq<char>,
)
    requires
        is_ascii_text(s),
        is_ascii_text(t),
        contains_seq(s, t),
    ensures
        container_matches(id, image, names, labels, s) ==> container_matches(id, image, names, labels, t),
{
    if container_matches(id, image, names, labels, s) && t.len() > 0 {
        let ls = text_lower(s);
        let lt = text_lower(t);
        lemma_ascii_lowercase_contains(s, t);
        assert(contains_seq(ls, lt));
        if s.len() == 0 {
            let i = choose|i: int| occurs_at(s, t, i);
            assert(false);
        } else if contains_seq(id, s) {
            lemma_contains_transitive(id, s, t);
        } else if lower_contains(image, ls) {
            lemma_contains_transitive(text_lower(image), ls, lt);
        } else if exists|i: int| 0 <= i < names.len() && lower_contains(#[trigger] names[i], ls) {
            let i = choose|i: int| 0 <= i < names.len() && lower_contains(#[trigger] names[i], ls);
            lemma_contains_transitive(text_lower(names[i]), ls, lt);
            assert(lower_contains(names[i], lt));
        } else {
            let ls_ = labels->0;
            let i = choose|i: int|
                0 <= i < ls_.len() && (lower_contains((#[trigger] ls_[i]).0, ls) || lower_contains(ls_[i].1, ls));
            if lower_contains(ls_[i].0, ls) {
                lemma_contains_transitive(text_lower(ls_[i].0), ls, lt);
            } else {
                lemma_contains_transitive(text_lower(ls_[i].1), ls, lt);
            }
            assert(lower_contains(ls_[i].0, lt) || lower_contains(ls_[i].1, lt));
        }
    }
}

/// Decides `container_matches` for the fields of a container.
pub fn container_filter(
    id: &String,
    image: &String,
    names: &Vec<String>,
    labels: &Option<StrMap<String>>,
    value: &str,
) -> (r: bool)
    requires
        labels_wf(*labels),
    ensures
        r == container_matches(id@, image@, strs_view(names@), labels_view(*labels), value@),
{
    let ghost names_v = strs_view(names@);
    let ghost labels_v = labels_view(*labels);
    if value.is_empty() {
        return true;
    }
    if str_contains(id.as_str(), value) {
        return true;
    }
    let lowered = to_lowercase(value);
    let image_lower = to_lowercase(image.as_str());
    if str_contains(image_lower.as_str(), lowered.as_str()) {
        return true;
    }
    let mut i: usize = 0;
    while i < names.len()
        invariant
            i <= names@.len(),
            names_v == strs_view(names@),
            lowered@ == text_lower(value@),
            forall|j: int| 0 <= j < i ==> !lower_contains(#[trigger] names_v[j], lowered@),
        decreases names@.len() - i,
    {
        let name_lower = to_lowercase(names[i].as_str());
        if str_contains(name_lower.as_str(), lowered.as_str()) {
            assert(lower_contains(names_v[i as int], lowered@));
            return true;
        }
        i = i + 1;
    }
    match labels {
        Some(m) => {
            let ghost ls = str_entries(*m);
            let mut k: usize = 0;
            while k < m.len()
                invariant
                    m.wf(),
                    k <= m.spec_len(),
                    ls == str_entries(*m),
                    labels_view(*labels) == Some(ls),
                    names_v == strs_view(names@),
                    lowered@ == text_lower(value@),
                    forall|j: int|
                        0 <= j < k ==> !(lower_contains((#[trigger] ls[j]).0, lowered@) || lower_contains(
                            ls[j].1,
                            lowered@,
                        )),
                decreases m.spec_len() - k,
            {
                let key_lower = to_lowercase(m.key_at(k).as_str());
                if str_contains(key_lower.as_str(), lowered.as_str()) {
                    assert(lower_contains(ls[k as int].0, lowered@));
                    proof {
                        assert(exists|i: int|
                            0 <= i < ls.len() && (lower_contains((#[trigger] ls[i]).0, lowered@)
                                || lower_contains(ls[i].1, lowered@)));
                        let ghost lbl = labels_view(*labels);
                        assert(lbl matches Some(ls3) && ls3 == ls);
                    }
                    return true;
                }
                let value_lower = to_lowercase(m.value_at(k).as_str());
                if str_contains(value_lower.as_str(), lowered.as_str()) {
                    assert(lower_contains(ls[k as int].1, lowered@));
                    proof {
                        assert(exists|i: int|
                            0 <= i < ls.len() && (lower_contains((#[trigger] ls[i]).0, lowered@)
                                || lower_contains(ls[i].1, lowered@)));
                        let ghost lbl = labels_view(*labels);
                        assert(lbl matches Some(ls3) && ls3 == ls);
                    }
                    return true;
                }
                k = k + 1;
            }
            false
        },
        None => false,
    }
}

/// A copy of optional labels.
pub fn clone_labels(labels: &Option<StrMap<String>>) -> (r: Option<StrMap<String>>)
    ensures
        labels_wf(r) == labels_wf(*labels),
        labels_view(r) == labels_view(*labels),
{
    match labels {
        Some(m) => Some(m.clone_map()),
        None => None,
    }
}

/// A copy of a list of samples.
pub fn copy_samples<T: Copy>(v: &Vec<T>) -> (r: Vec<T>)
    ensures
        r@ == v@,
{
    let mut r: Vec<T> = Vec::new();
    let mut i: usize = 0;
    while i < v.len()
        invariant
            i <= v@.len(),
            r@ == v@.take(i as int),
        decreases v@.len() - i,
    {
        let x: T = v[i];
        r.push(x);
        assert(v@.take(i as int).push(v@[i as int]) =~= v@.take(i + 1));
        i = i + 1;
    }
    assert(v@.take(v@.len() as int) =~= v@);
    r
}

/// A container as an agent reports it.
pub struct ContainerJsonModel<C: Copy> {
    pub id: String,
    pub image: String,
    pub names: Vec<String>,
    pub labels: Option<StrMap<String>>,
    pub enabled: bool,
    pub cpu: CpuUsageJsonMode<C>,
    pub mem: MemUsageJsonMode,
}

/// The contents of a reported container.
pub struct ContainerJsonView<C> {
    pub id: Seq<char>,
    pub image: Seq<char>,
    pub names: Seq<Seq<char>>,
    pub labels: Option<Seq<(Seq<char>, Seq<char>)>>,
    pub enabled: bool,
    pub cpu: Option<C>,
    pub mem: MemUsageJsonMode,
}

impl<C: Copy> View for ContainerJsonModel<C> {
    type V = ContainerJsonView<C>;

    open spec fn view(&self) -> ContainerJsonView<C> {
        ContainerJsonView {
            id: self.id@,
            image: self.image@,
            names: strs_view(self.names@),
            labels: labels_view(self.labels),
            enabled: self.enabled,
            cpu: self.cpu.usage,
            mem: self.mem,
        }
    }
}

impl<C: Copy> ContainerJsonModel<C> {
    pub open spec fn wf(&self) -> bool {
        labels_wf(self.labels)
    }
}

/// What an agent answers: the VM it runs on and its containers.
pub struct StatisticsContract<C: Copy> {
    pub vm: String,
    pub containers: Vec<ContainerJsonModel<C>>,
}

/// A container as the dashboard shows it, with the recent CPU and memory
/// samples when they were asked for.
pub struct ContainerModel<C: Copy> {
    pub id: String,
    pub image: String,
    pub names: Vec<String>,
    pub labels: Option<StrMap<String>>,
    pub enabled: bool,
    pub cpu: CpuUsageJsonMode<C>,
    pub mem: MemUsageJsonMode,
    pub cpu_usage_history: Option<Vec<C>>,
    pub mem_usage_history: Option<Vec<i64>>,
}

/// The contents of a shown container.
pub struct ContainerView<C> {
    pub id: Seq<char>,
    pub image: Seq<char>,
    pub names: Seq<Seq<char>>,
    pub labels: Option<Seq<(Seq<char>, Seq<char>)>>,
    pub enabled: bool,
    pub cpu: Option<C>,
    pub mem: MemUsageJsonMode,
    pub cpu_usage_history: Option<Seq<C>>,
    pub mem_usage_history: Option<Seq<i64>>,
}

pub open spec fn opt_seq<T>(v: Option<Vec<T>>) -> Option<Seq<T>> {
    match v {
        Some(x) => Some(x@),
        None => None,
    }
}

impl<C: Copy> View for ContainerModel<C> {
    type V = ContainerView<C>;

    open spec fn view(&self) -> ContainerView<C> {
        ContainerView {
            id: self.id@,
            image: self.image@,
            names: strs_view(self.names@),
            labels: labels_view(self.labels),
            enabled: self.enabled,
            cpu: self.cpu.usage,
            mem: self.mem,
            cpu_usage_history: opt_seq(self.cpu_usage_history),
            mem_usage_history: opt_seq(self.mem_usage_history),
        }
    }
}

impl<C: Copy> ContainerModel<C> {
    pub open spec fn wf(&self) -> bool {
        labels_wf(self.labels)
    }

    /// Whether the container matches the filter text `value`.
    pub fn filter_me(&self, value: &str) -> (r: bool)
        requires
            self.wf(),
        ensures
            r == container_matches(self@.id, self@.image, self@.names, self@.labels, value@),
    {
        container_filter(&self.id, &self.image, &self.names, &self.labels, value)
    }

    /// Takes the reported usage, labels, state and image; the id, the names and
    /// the recorded samples stay.
    pub fn update(&mut self, src: ContainerJsonModel<C>)
        requires
            src.wf(),
        ensures
            final(self).wf(),
            final(self)@ == (ContainerView {
                cpu: src@.cpu,
                mem: src@.mem,
                labels: src@.labels,
                enabled: src@.enabled,
                image: src@.image,
                ..old(self)@
            }),
    {
        self.cpu = src.cpu;
        self.mem = src.mem;
        self.labels = src.labels;
        self.enabled = src.enabled;
        self.image = src.image;
    }
}

impl<C: Copy> Clone for ContainerModel<C> {
    fn clone(&self) -> (r: Self)
        ensures
            r.wf() == self.wf(),
            r@ == self@,
    {
        let r = ContainerModel {
            id: self.id.clone(),
            image: self.image.clone(),
            names: clone_strings(&self.names),
            labels: match &self.labels {
                Some(m) => Some(m.clone_map()),
                None => None,
            },
            enabled: self.enabled,
            cpu: self.cpu.clone(),
            mem: self.mem,
            cpu_usage_history: match &self.cpu_usage_history {
                Some(v) => Some(copy_samples(v)),
                None => None,
            },
            mem_usage_history: match &self.mem_usage_history {
                Some(v) => Some(copy_samples(v)),
                None => None,
            },
        };
        proof {
            assert(r@.labels == self@.labels);
            assert(r@.names == self@.names);
            assert(r@.cpu_usage_history == self@.cpu_usage_history);
            assert(r@.mem_usage_history == self@.mem_usage_history);
        }
        r
    }
}

/// One row of the container list: the VM it runs on (given when every VM is
/// shown), the agent's URL, and the container.
pub struct MetricsByVm<C: Copy> {
    pub vm: Option<String>,
    pub url: String,
    pub container: ContainerModel<C>,
}

} // verus!
