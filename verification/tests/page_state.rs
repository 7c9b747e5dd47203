use std::rc::Rc;

use docker_statistics_ui::dashboard::{all_vms_totals, all_vms_totals_fit, listed_rows, row_color};
use docker_statistics_ui::data_cache_by_env::RequestApiModel;
use docker_statistics_ui::dialog_state::{DialogState as Dialog, DialogType};
use docker_statistics_ui::main_state::{sort_by_image, MainState};
use docker_statistics_ui::metrics_cache::VmTotals;
use docker_statistics_ui::models::{ContainerModel, CpuUsageJsonMode, MemUsageJsonMode, MetricsByVm};
use docker_statistics_ui::selected_vm::SelectedVm;
use docker_statistics_ui::show_logs::{
    decode_log_lines, log_line_color, try_decode_log_lines, DataState, DialogState,
};
use docker_statistics_ui::str_map::StrMap;

fn row(id: &str, image: &str, enabled: bool) -> MetricsByVm<f64> {
    MetricsByVm {
        vm: None,
        url: "http://agent".to_string(),
        container: ContainerModel {
            id: id.to_string(),
            image: image.to_string(),
            names: vec!["/svc".to_string()],
            labels: None,
            enabled,
            cpu: CpuUsageJsonMode { usage: None },
            mem: MemUsageJsonMode { usage: None, available: None, limit: None },
            cpu_usage_history: None,
            mem_usage_history: None,
        },
    }
}

fn frame(tp: u8, text: &str) -> Vec<u8> {
    let size = (text.len() + 1) as u32;
    let mut v = vec![tp, 0, 0, 0];
    v.extend_from_slice(&size.to_be_bytes());
    v.extend_from_slice(text.as_bytes());
    v.push(b'\n');
    v
}

fn totals(mem: i64, mem_limit: i64, amount: usize, cpu: Vec<f64>) -> VmTotals<f64> {
    VmTotals { api_url: "u".to_string(), cpu_samples: cpu, mem, mem_limit, containers_amount: amount }
}

#[test]
fn main_state_starts_empty() {
    let s: MainState<f64> = MainState::new();
    assert!(s.get_containers().is_none());
    assert_eq!(s.get_filter(), "");
    assert!(!s.is_all_vms_selected());
    assert!(!s.is_single_vm_selected("vm"));
    assert_eq!(s.state_no, 0);
}

#[test]
fn selecting_vm_drops_rows_and_moves_state_on() {
    let mut s: MainState<f64> = MainState::new();
    s.set_containers(vec![row("a", "img", true)]);
    assert!(s.get_containers().is_some());
    s.set_selected_vm(SelectedVm::SingleVm("vm-1".to_string()));
    assert!(s.get_containers().is_none());
    assert_eq!(s.state_no, 1);
    assert!(s.is_single_vm_selected("vm-1"));
    assert!(!s.is_single_vm_selected("vm-2"));
    assert!(!s.is_all_vms_selected());
    s.set_selected_vm(SelectedVm::All);
    assert!(s.is_all_vms_selected());
    assert!(!s.is_single_vm_selected("vm-1"));
    assert_eq!(s.state_no, 2);
}

#[test]
fn selected_vm_with_env() {
    let mut s: MainState<f64> = MainState::new();
    s.selected_env = Some("prod".to_string());
    let (env, vm) = s.get_selected_vm();
    assert_eq!(env, "prod");
    assert!(vm.is_none());
    s.set_selected_vm(SelectedVm::SingleVm("vm".to_string()));
    let (_, vm) = s.get_selected_vm();
    assert!(vm.unwrap().is_single_selected_with_name("vm"));
}

#[test]
fn containers_sorted_by_image_stably() {
    let mut s: MainState<f64> = MainState::new();
    s.set_containers(vec![row("1", "redis", true), row("2", "nginx", true), row("3", "redis", false), row("4", "alpine", true)]);
    let ids: Vec<String> = s.get_containers().unwrap().iter().map(|r| r.container.id.clone()).collect();
    assert_eq!(ids, vec!["4", "2", "1", "3"]);
}

#[test]
fn containers_filtered_by_text() {
    let mut s: MainState<f64> = MainState::new();
    s.set_containers(vec![row("abc", "Redis", true), row("def", "nginx", true)]);
    s.set_filter("REDIS".to_string());
    assert_eq!(s.get_filter(), "REDIS");
    let shown = s.get_containers().unwrap();
    assert_eq!(shown.len(), 1);
    assert_eq!(shown[0].container.id, "abc");
    s.set_filter("de".to_string());
    let shown = s.get_containers().unwrap();
    assert_eq!(shown.len(), 1);
    assert_eq!(shown[0].container.id, "def");
    s.set_filter("DE".to_string());
    assert_eq!(s.get_containers().unwrap().len(), 0);
    s.set_filter("SVC".to_string());
    assert_eq!(s.get_containers().unwrap().len(), 2);
}

#[test]
fn empty_filter_shows_every_row() {
    let mut s: MainState<f64> = MainState::new();
    s.set_containers(vec![row("a", "x", true), row("b", "y", false)]);
    s.set_filter(String::new());
    assert_eq!(s.get_containers().unwrap().len(), 2);
}

#[test]
fn filter_matches_labels() {
    let mut labels = StrMap::new();
    labels.insert("com.docker.compose.service".to_string(), "Web".to_string());
    let mut r = row("a", "x", true);
    r.container.labels = Some(labels);
    assert!(r.container.filter_me("compose"));
    assert!(r.container.filter_me("web"));
    assert!(!r.container.filter_me("db"));
}

#[test]
fn answer_updates_totals_and_rows() {
    let mut s: MainState<f64> = MainState::new();
    let mut vms = StrMap::new();
    vms.insert("vm".to_string(), totals(1, 2, 3, vec![]));
    s.apply_answer(RequestApiModel { vms, metrics: None });
    assert_eq!(s.vms_state.as_ref().unwrap().len(), 1);
    assert!(s.get_containers().is_none());
    s.apply_answer(RequestApiModel { vms: StrMap::new(), metrics: Some(vec![row("a", "img", true)]) });
    assert_eq!(s.vms_state.as_ref().unwrap().len(), 0);
    assert_eq!(s.get_containers().unwrap().len(), 1);
}

#[test]
fn sort_by_image_keeps_equal_images_in_order() {
    let rows = vec![row("1", "b", true), row("2", "a", true), row("3", "b", true), row("4", "a", true)];
    let refs: Vec<&MetricsByVm<f64>> = rows.iter().collect();
    let sorted = sort_by_image(refs);
    let ids: Vec<&str> = sorted.iter().map(|r| r.container.id.as_str()).collect();
    assert_eq!(ids, vec!["2", "4", "1", "3"]);
}

#[test]
fn disabled_rows_listed_on_request() {
    let rows = vec![row("1", "a", true), row("2", "b", false), row("3", "c", true)];
    let refs: Vec<&MetricsByVm<f64>> = rows.iter().collect();
    let hidden = listed_rows(&refs, false);
    assert_eq!(hidden.len(), 2);
    assert_eq!(hidden[1].container.id, "3");
    assert_eq!(listed_rows(&refs, true).len(), 3);
    assert_eq!(row_color(true), "black");
    assert_eq!(row_color(false), "lightgray");
}

#[test]
fn all_vms_entry_adds_up_totals() {
    let mut vms = StrMap::new();
    vms.insert("vm-1".to_string(), totals(100, 1000, 2, vec![0.5]));
    vms.insert("vm-2".to_string(), totals(-20, 24, 1, vec![0.25, 1.0]));
    assert!(all_vms_totals_fit(&vms));
    let all = all_vms_totals(&vms);
    assert_eq!(all.api_url, "");
    assert_eq!(all.mem, 80);
    assert_eq!(all.mem_limit, 1024);
    assert_eq!(all.containers_amount, 3);
    assert_eq!(all.cpu_samples, vec![0.5, 0.25, 1.0]);
}

#[test]
fn all_vms_totals_overflow_detected() {
    let mut vms = StrMap::new();
    vms.insert("vm-1".to_string(), totals(i64::MAX, 0, 0, vec![]));
    vms.insert("vm-2".to_string(), totals(1, 0, 0, vec![]));
    assert!(!all_vms_totals_fit(&vms));
    let mut vms = StrMap::new();
    vms.insert("vm-1".to_string(), totals(0, 0, usize::MAX, vec![]));
    vms.insert("vm-2".to_string(), totals(0, 0, 1, vec![]));
    assert!(!all_vms_totals_fit(&vms));
}

#[test]
fn dialog_show_and_hide() {
    let mut d = Dialog::Hidden;
    d.show_dialog(
        "Logs of container nginx".to_string(),
        DialogType::ShowLogs { env: Rc::new("prod".to_string()), url: "http://a".to_string(), container_id: "abc".to_string() },
    );
    match d.as_ref() {
        Dialog::Shown { header, dialog_type: DialogType::ShowLogs { env, url, container_id } } => {
            assert_eq!(header, "Logs of container nginx");
            assert_eq!(env.as_str(), "prod");
            assert_eq!(url, "http://a");
            assert_eq!(container_id, "abc");
        },
        Dialog::Hidden => panic!("dialog should be shown"),
    }
    d.hide_dialog();
    assert!(matches!(d, Dialog::Hidden));
}

#[test]
fn log_dialog_asks_for_100_lines_by_default() {
    let mut d = DialogState::new();
    assert!(matches!(d.data, DataState::Empty));
    assert_eq!(d.lines_amount, "100");
    assert_eq!(d.get_lines_amount(), 100);
    d.lines_amount = "250".to_string();
    assert_eq!(d.get_lines_amount(), 250);
    d.lines_amount = "many".to_string();
    assert_eq!(d.get_lines_amount(), 100);
    d.lines_amount = "".to_string();
    assert_eq!(d.get_lines_amount(), 100);
    d.lines_amount = "4294967296".to_string();
    assert_eq!(d.get_lines_amount(), 100);
    d.lines_amount = "4294967295".to_string();
    assert_eq!(d.get_lines_amount(), 4294967295);
}

#[test]
fn log_line_colors_by_stream() {
    assert_eq!(log_line_color(0), "orange");
    assert_eq!(log_line_color(1), "black");
    assert_eq!(log_line_color(2), "red");
    assert_eq!(log_line_color(7), "gray");
}

#[test]
fn log_frames_decode_to_lines() {
    let mut payload = frame(1, "started");
    payload.extend(frame(2, "warning: ünïcode"));
    let lines = try_decode_log_lines(&payload).unwrap();
    assert_eq!(lines.len(), 2);
    assert_eq!(lines[0].tp, 1);
    assert_eq!(lines[0].line, "started");
    assert_eq!(lines[1].tp, 2);
    assert_eq!(lines[1].line, "warning: ünïcode");
    assert_eq!(decode_log_lines(&payload).len(), 2);
}

#[test]
fn log_frames_empty_and_stop_marks() {
    assert_eq!(try_decode_log_lines(&[]).unwrap().len(), 0);
    let mut payload = frame(1, "one");
    payload.extend_from_slice(&[1, 5, 0, 0]);
    let lines = try_decode_log_lines(&payload).unwrap();
    assert_eq!(lines.len(), 1);
    let mut payload = frame(1, "one");
    payload.push(1);
    assert_eq!(try_decode_log_lines(&payload).unwrap().len(), 1);
}

#[test]
fn log_frames_broken_off_fail() {
    let payload = frame(1, "line");
    assert!(try_decode_log_lines(&payload[..payload.len() - 1]).is_none());
    assert!(try_decode_log_lines(&[1, 0, 0, 0, 0, 0]).is_none());
    assert!(try_decode_log_lines(&[1, 0, 0, 0, 0, 0, 0, 0]).is_none());
    let mut bad = vec![1, 0, 0, 0, 0, 0, 0, 3];
    bad.extend_from_slice(&[0xff, 0xfe, b'\n']);
    assert!(try_decode_log_lines(&bad).is_none());
}

#[test]
fn log_lines_must_be_utf8() {
    let lines = try_decode_log_lines(&frame(0, "héllo")).unwrap();
    assert_eq!(lines[0].line, "héllo");
    assert!(try_decode_log_lines(&[0, 0, 0, 0, 0, 0, 0, 2, 0xc3, b'\n']).is_none());
}

#[test]
fn selected_vm_checks() {
    let all = SelectedVm::All;
    assert!(all.is_all());
    assert!(!all.is_single_selected_with_name("vm"));
    let one = SelectedVm::SingleVm("vm".to_string());
    assert!(!one.is_all());
    assert!(one.is_single_selected_with_name("vm"));
    assert!(!one.is_single_selected_with_name("VM"));
    assert!(one.clone().is_single_selected_with_name("vm"));
}

#[test]
fn filter_compares_image_in_lowercase() {
    let r = row("x1", "ÄRGER/NgInX", true);
    assert!(r.container.filter_me("ärger"));
    assert!(r.container.filter_me("NGINX"));
    assert!(!r.container.filter_me("apache"));
}

#[test]
fn log_dialog_request_cycle() {
    let mut d = DialogState::new();
    d.set_lines_amount("20".to_string());
    assert_eq!(d.start_request(), Some(20));
    assert!(matches!(d.data, DataState::Loading));
    assert_eq!(d.start_request(), None);
    assert!(matches!(d.data, DataState::Loading));
    d.finish_request(Ok(try_decode_log_lines(&frame(1, "up")).unwrap()));
    match &d.data {
        DataState::Loaded(lines) => assert_eq!(lines[0].line, "up"),
        _ => panic!("expected the lines"),
    }
    assert_eq!(d.start_request(), None);
    d.set_lines_amount("abc".to_string());
    d.request_again();
    assert!(matches!(d.data, DataState::Empty));
    assert_eq!(d.start_request(), Some(100));
    d.finish_request(Err("timeout".to_string()));
    match &d.data {
        DataState::Error(e) => assert_eq!(e, "timeout"),
        _ => panic!("expected the error"),
    }
}
