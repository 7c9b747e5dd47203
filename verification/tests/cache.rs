use docker_statistics_ui::data_cache_by_env::DataCacheByEnv;
use docker_statistics_ui::metrics_cache::{remove_not_used_keys_keys, MetricsCache};
use docker_statistics_ui::metrics_history::METRICS_HISTORY_SIZE;
use docker_statistics_ui::models::{ContainerJsonModel, CpuUsageJsonMode, MemUsageJsonMode, StatisticsContract};
use docker_statistics_ui::selected_vm::SelectedVm;
use docker_statistics_ui::str_map::StrMap;
use docker_statistics_ui::timers::UpdateMetricsCacheTimer;

fn report(id: &str, image: &str, enabled: bool, cpu: Option<f64>, mem: Option<i64>, limit: Option<i64>) -> ContainerJsonModel<f64> {
    ContainerJsonModel {
        id: id.to_string(),
        image: image.to_string(),
        names: vec![format!("/{}", id)],
        labels: None,
        enabled,
        cpu: CpuUsageJsonMode { usage: cpu },
        mem: MemUsageJsonMode { usage: mem, available: None, limit },
    }
}

#[test]
fn new_vm_gets_entry_with_reporting_url() {
    let mut cache: MetricsCache<f64> = MetricsCache::new();
    cache.update("vm-1", vec![report("a", "nginx", true, Some(0.5), Some(100), Some(1000))], "http://10.0.0.2:7999".to_string());
    assert_eq!(cache.data.len(), 1);
    let entry = cache.data.get("vm-1").unwrap();
    assert_eq!(entry.api_url, "http://10.0.0.2:7999");
    assert_eq!(entry.containers.len(), 1);
    let c = entry.containers.get("a").unwrap();
    assert_eq!(c.image, "nginx");
    assert_eq!(c.cpu_usage_history.get_snapshot().len(), 0);
    assert_eq!(c.mem_usage_history.get_snapshot().len(), 0);
}

#[test]
fn known_vm_keeps_its_url_and_records_samples() {
    let mut cache: MetricsCache<f64> = MetricsCache::new();
    cache.update("vm-1", vec![report("a", "nginx", true, Some(0.5), Some(100), Some(1000))], "http://first".to_string());
    cache.update("vm-1", vec![report("a", "nginx:2", true, Some(0.25), Some(200), Some(1000))], "http://second".to_string());
    let entry = cache.data.get("vm-1").unwrap();
    assert_eq!(entry.api_url, "http://first");
    let c = entry.containers.get("a").unwrap();
    assert_eq!(c.image, "nginx:2");
    assert_eq!(c.cpu_usage_history.get_snapshot(), vec![0.25]);
    assert_eq!(c.mem_usage_history.get_snapshot(), vec![200]);
}

#[test]
fn missing_usage_records_no_sample() {
    let mut cache: MetricsCache<f64> = MetricsCache::new();
    cache.update("vm", vec![report("a", "img", true, Some(1.0), Some(1), None)], "u".to_string());
    cache.update("vm", vec![report("a", "img", true, Some(2.0), Some(2), None)], "u".to_string());
    cache.update("vm", vec![report("a", "img", true, None, None, None)], "u".to_string());
    let c = cache.data.get("vm").unwrap().containers.get("a").unwrap();
    assert_eq!(c.cpu_usage_history.get_snapshot(), vec![2.0]);
    assert_eq!(c.mem_usage_history.get_snapshot(), vec![2]);
}

#[test]
fn report_drops_containers_no_longer_reported() {
    let mut cache: MetricsCache<f64> = MetricsCache::new();
    cache.update(
        "vm",
        vec![report("a", "img-a", true, None, None, None), report("b", "img-b", true, None, None, None)],
        "u".to_string(),
    );
    cache.update("vm", vec![report("b", "img-b", true, None, None, None), report("c", "img-c", false, None, None, None)], "u".to_string());
    let entry = cache.data.get("vm").unwrap();
    assert_eq!(entry.containers.len(), 2);
    assert!(!entry.containers.contains_key("a"));
    assert!(entry.containers.contains_key("b"));
    assert!(entry.containers.contains_key("c"));
}

#[test]
fn report_leaves_other_vms_alone() {
    let mut cache: MetricsCache<f64> = MetricsCache::new();
    cache.update("vm-1", vec![report("a", "img", true, None, None, None)], "u1".to_string());
    cache.update("vm-2", vec![], "u2".to_string());
    let entry = cache.data.get("vm-1").unwrap();
    assert_eq!(entry.containers.len(), 1);
    assert_eq!(cache.data.get("vm-2").unwrap().containers.len(), 0);
}

#[test]
fn history_window_keeps_last_samples_in_cache() {
    let mut cache: MetricsCache<f64> = MetricsCache::new();
    for i in 0..(METRICS_HISTORY_SIZE + 10) {
        cache.update("vm", vec![report("a", "img", true, Some(i as f64), Some(i as i64), None)], "u".to_string());
    }
    let c = cache.data.get("vm").unwrap().containers.get("a").unwrap();
    let cpu = c.cpu_usage_history.get_snapshot();
    let mem = c.mem_usage_history.get_snapshot();
    assert_eq!(cpu.len(), METRICS_HISTORY_SIZE);
    assert_eq!(mem.len(), METRICS_HISTORY_SIZE);
    assert_eq!(cpu[0], 10.0);
    assert_eq!(*mem.last().unwrap(), (METRICS_HISTORY_SIZE + 9) as i64);
}

#[test]
fn duplicate_id_in_report_later_wins() {
    let mut cache: MetricsCache<f64> = MetricsCache::new();
    cache.update("vm", vec![report("a", "first", true, None, None, None), report("a", "second", true, None, None, None)], "u".to_string());
    let entry = cache.data.get("vm").unwrap();
    assert_eq!(entry.containers.len(), 1);
    assert_eq!(entry.containers.get("a").unwrap().image, "second");
}

#[test]
fn vm_totals_sum_memory_and_count_enabled() {
    let mut cache: MetricsCache<f64> = MetricsCache::new();
    cache.update(
        "vm",
        vec![
            report("a", "img", true, Some(0.5), Some(100), Some(1000)),
            report("b", "img", false, None, Some(50), None),
            report("c", "img", true, Some(1.5), None, Some(24)),
        ],
        "http://agent".to_string(),
    );
    assert!(cache.totals_fit());
    let totals = cache.get_vm_cpu_and_mem();
    assert_eq!(totals.len(), 1);
    let t = totals.get("vm").unwrap();
    assert_eq!(t.api_url, "http://agent");
    assert_eq!(t.cpu_samples, vec![0.5, 1.5]);
    assert_eq!(t.mem, 150);
    assert_eq!(t.mem_limit, 1024);
    assert_eq!(t.containers_amount, 2);
}

#[test]
fn totals_that_overflow_do_not_fit() {
    let mut cache: MetricsCache<f64> = MetricsCache::new();
    cache.update(
        "vm",
        vec![report("a", "img", true, None, Some(i64::MAX), None), report("b", "img", true, None, Some(1), None)],
        "u".to_string(),
    );
    assert!(!cache.totals_fit());
}

#[test]
fn cpu_and_mem_by_vm_and_container() {
    let mut cache: MetricsCache<f64> = MetricsCache::new();
    cache.update("vm", vec![report("a", "img", true, Some(0.75), Some(10), None), report("b", "img", true, None, None, None)], "u".to_string());
    let cpu = cache.get_cpu_by_vm_and_container(-1.0);
    let by_container = cpu.get("vm").unwrap();
    assert_eq!(*by_container.get("a").unwrap(), 0.75);
    assert_eq!(*by_container.get("b").unwrap(), -1.0);
    let mem = cache.get_mem_by_vm_and_container();
    let by_container = mem.get("vm").unwrap();
    assert_eq!(*by_container.get("a").unwrap(), 10);
    assert_eq!(*by_container.get("b").unwrap(), 0);
}

#[test]
fn get_containers_lists_each_vm() {
    let mut cache: MetricsCache<f64> = MetricsCache::new();
    cache.update("vm-2", vec![report("x", "img", true, None, None, None)], "u2".to_string());
    cache.update("vm-1", vec![report("b", "img", true, None, None, None), report("a", "img", true, None, None, None)], "u1".to_string());
    let all = cache.get_containers();
    assert_eq!(all.len(), 2);
    let vm1 = all.get("vm-1").unwrap();
    assert_eq!(vm1.len(), 2);
    assert_eq!(vm1[0].id, "a");
    assert_eq!(vm1[1].id, "b");
}

#[test]
fn metrics_by_vm_for_all_and_single() {
    let mut cache: MetricsCache<f64> = MetricsCache::new();
    cache.update("vm-2", vec![report("x", "img", true, None, None, None)], "u2".to_string());
    cache.update("vm-1", vec![report("a", "img", true, None, None, None)], "u1".to_string());
    let all = cache.get_metrics_by_vm(&SelectedVm::All);
    assert_eq!(all.len(), 2);
    assert_eq!(all[0].0, Some("vm-1".to_string()));
    assert_eq!(all[0].1, "u1");
    assert_eq!(all[0].2.id, "a");
    assert_eq!(all[1].0, Some("vm-2".to_string()));
    let single = cache.get_metrics_by_vm(&SelectedVm::SingleVm("vm-2".to_string()));
    assert_eq!(single.len(), 1);
    assert_eq!(single[0].0, None);
    assert_eq!(single[0].1, "u2");
    let unknown = cache.get_metrics_by_vm(&SelectedVm::SingleVm("vm-3".to_string()));
    assert_eq!(unknown.len(), 0);
}

#[test]
fn remove_not_used_keys_keeps_only_source_keys() {
    let mut current: StrMap<u32> = StrMap::new();
    current.insert("a".to_string(), 1);
    current.insert("b".to_string(), 2);
    current.insert("c".to_string(), 3);
    let mut src: StrMap<bool> = StrMap::new();
    src.insert("b".to_string(), true);
    src.insert("d".to_string(), false);
    remove_not_used_keys_keys(&mut current, &src);
    assert_eq!(current.len(), 1);
    assert_eq!(*current.get("b").unwrap(), 2);
    assert!(current.get("a").is_none());
    assert!(current.get("d").is_none());
}

#[test]
fn data_cache_by_env_keeps_envs_apart() {
    let mut cache: DataCacheByEnv<f64> = DataCacheByEnv::new();
    cache.update("prod", "vm", vec![report("a", "img", true, Some(1.0), Some(5), Some(10))], "http://p".to_string());
    cache.update("stage", "vm", vec![report("b", "img", true, None, None, None)], "http://s".to_string());
    assert_eq!(cache.envs.len(), 2);
    let prod = cache.envs.get("prod").unwrap();
    assert!(prod.data.get("vm").unwrap().containers.contains_key("a"));
    assert!(!prod.data.get("vm").unwrap().containers.contains_key("b"));
}

#[test]
fn data_cache_by_env_answers_request() {
    let mut cache: DataCacheByEnv<f64> = DataCacheByEnv::new();
    cache.update("prod", "vm", vec![report("a", "img", true, Some(1.0), Some(5), Some(10))], "http://p".to_string());
    cache.update("prod", "vm", vec![report("a", "img", true, Some(2.0), Some(6), Some(10))], "http://p".to_string());
    assert!(cache.totals_fit("prod"));
    let answer = cache.get_vm_cpu_and_mem("prod", Some(&SelectedVm::All));
    assert_eq!(answer.vms.len(), 1);
    assert_eq!(answer.vms.get("vm").unwrap().mem, 6);
    let rows = answer.metrics.unwrap();
    assert_eq!(rows.len(), 1);
    assert_eq!(rows[0].vm, Some("vm".to_string()));
    assert_eq!(rows[0].container.cpu_usage_history, Some(vec![2.0]));
    assert_eq!(rows[0].container.mem_usage_history, Some(vec![6]));
    let without_rows = cache.get_vm_cpu_and_mem("prod", None);
    assert!(without_rows.metrics.is_none());
}

#[test]
fn data_cache_by_env_unknown_env_is_empty() {
    let cache: DataCacheByEnv<f64> = DataCacheByEnv::new();
    assert!(cache.totals_fit("nowhere"));
    let answer = cache.get_vm_cpu_and_mem("nowhere", Some(&SelectedVm::All));
    assert_eq!(answer.vms.len(), 0);
    assert!(answer.metrics.is_none());
}

#[test]
fn timer_takes_a_report_and_skips_a_failure() {
    let timer = UpdateMetricsCacheTimer;
    let mut cache: DataCacheByEnv<f64> = DataCacheByEnv::new();
    let ok = timer.apply_answer(
        &mut cache,
        "env",
        "http://a".to_string(),
        Ok(StatisticsContract { vm: "vm".to_string(), containers: vec![report("a", "img", true, None, None, None)] }),
    );
    assert!(ok);
    assert_eq!(cache.envs.len(), 1);
    let failed = timer.apply_answer(&mut cache, "other", "http://b".to_string(), Err("timeout".to_string()));
    assert!(!failed);
    assert_eq!(cache.envs.len(), 1);
    assert!(cache.envs.get("other").is_none());
}
