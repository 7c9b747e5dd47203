use vstd::prelude::*;
use crate::data_cache_by_env::DataCacheByEnv;
use crate::metrics_cache::{VmEntryView, cache_after_report, reported_ids, lemma_report_replaces_containers};
use crate::models::StatisticsContract;

verus! {

/// The timer that gathers the CPU and memory figures of every VM.
pub struct MetricsCollectorTimer;

/// The timer that asks every agent of every environment for its statistics
/// and takes the answers into the cache.
pub struct UpdateMetricsCacheTimer;

/// The cache of an environment after an agent's answer: a report goes in, a
/// failed request changes nothing.
pub open spec fn cache_after_answer<C: Copy>(
    cache: Map<Seq<char>, Map<Seq<char>, VmEntryView<C>>>,
    env: Seq<char>,
    api_url: Seq<char>,
    answer: Result<StatisticsContract<C>, String>,
) -> Map<Seq<char>, Map<Seq<char>, VmEntryView<C>>> {
    match answer {
        Ok(st) => cache.insert(
            env,
            cache_after_report(
                if cache.contains_key(env) {
                    cache[env]
                } else {
                    Map::empty()
                },
                st.vm@,
                st.containers@,
                api_url,
            ),
        ),
        Err(_) => cache,
    }
}

/// Every successful answer is taken as a report, however many containers it
/// lists (none included): afterwards the environment has a cache, the
/// answering VM is in it and holds exactly the reported containers, and the
/// other VMs and environments are as they were. A failed request changes
/// nothing.
pub proof fn lemma_answer_is_taken<C: Copy>(
    cache: Map<Seq<char>, Map<Seq<char>, VmEntryView<C>>>,
    env: Seq<char>,
    api_url: Seq<char>,
    answer: Result<StatisticsContract<C>, String>,
    other_env: Seq<char>,
    other_vm: Seq<char>,
)
    ensures
        answer is Err ==> cache_after_answer(cache, env, api_url, answer) == cache,
        answer matches Ok(st) ==> {
            let after = cache_after_answer(cache, env, api_url, answer);
            &&& after.contains_key(env)
            &&& after[env].contains_key(st.vm@)
            &&& after[env][st.vm@].containers.dom() == reported_ids(st.containers@)
            &&& (other_env != env ==> after.contains_key(other_env) == cache.contains_key(other_env))
            &&& (other_env != env && cache.contains_key(other_env) ==> after[other_env] == cache[other_env])
            &&& (other_vm != st.vm@ && cache.contains_key(env) && cache[env].contains_key(other_vm) ==> after[env].contains_key(other_vm) && after[env][other_vm] == cache[env][other_vm])
        },
{
    if let Ok(st) = answer {
        let before = if cache.contains_key(env) {
            cache[env]
        } else {
            Map::empty()
        };
        lemma_report_replaces_containers(before, st.vm@, st.containers@, api_url);
    }
}

impl UpdateMetricsCacheTimer {
    /// Takes the answer of the agent at `api_url` of environment `env` into the
    /// cache; says whether there was a report to take.
    pub fn apply_answer<C: Copy>(
        &self,
        cache: &mut DataCacheByEnv<C>,
        env: &str,
        api_url: String,
        answer: Result<StatisticsContract<C>, String>,
    ) -> (r: bool)
        requires
            old(cache).wf(),
            answer matches Ok(st) ==> forall|i: int|
                0 <= i < st.containers@.len() ==> (#[trigger] st.containers@[i]).wf(),
        ensures
            final(cache).wf(),
            r == answer is Ok,
            final(cache)@ == cache_after_answer(old(cache)@, env@, api_url@, answer),
            answer is Err ==> final(cache)@ == old(cache)@,
            answer matches Ok(st) ==> final(cache)@.contains_key(env@) && final(cache)@[env@].contains_key(st.vm@)
                && final(cache)@[env@][st.vm@].containers.dom() == reported_ids(st.containers@),
    {
        proof {
            lemma_answer_is_taken(old(cache)@, env@, api_url@, answer, env@, env@);
        }
        match answer {
            Ok(statistics) => {
                cache.update(env, statistics.vm.as_str(), statistics.containers, api_url);
                true
            },
            Err(_) => false,
        }
    }
}

} // verus!
