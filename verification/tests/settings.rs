use docker_statistics_ui::server_settings::{self, UrlLookupError};
use docker_statistics_ui::settings::{SettingsModel, SshCredentialsSettingsModel, VmSettingsModel};
use docker_statistics_ui::ssh_certs_cache::SshCacheCerts;
use docker_statistics_ui::ssh_settings::{extract_ssh_line, parse_url, try_parse_url, SshCredentialsPlan, SshUrlError};
use docker_statistics_ui::str_map::StrMap;

fn key(path: &str, pass: &str) -> SshCredentialsSettingsModel {
    SshCredentialsSettingsModel { cert_path: path.to_string(), cert_pass_prase: pass.to_string() }
}

fn server_settings_with(envs: &[(&str, &[&str])]) -> server_settings::SettingsModel {
    let mut m: StrMap<Vec<server_settings::VmSettingsModel>> = StrMap::new();
    for (env, urls) in envs {
        let vms = urls.iter().map(|u| server_settings::VmSettingsModel { url: u.to_string() }).collect();
        m.insert(env.to_string(), vms);
    }
    server_settings::SettingsModel { envs: m, ssh_private_keys: None, request_pass_key: None, users: None, user_groups: None }
}

#[test]
fn plain_url_is_used_as_is() {
    let r = parse_url("http://10.0.0.2:7999", None);
    assert!(r.0.is_none());
    assert_eq!(r.1, "http://10.0.0.2:7999");
    let mut keys = StrMap::new();
    keys.insert("ssh".to_string(), key("/root/cert", "pw"));
    let r = parse_url("https://host", Some(&keys));
    assert!(r.0.is_none());
    assert_eq!(r.1, "https://host");
}

#[test]
fn ssh_url_without_keys_uses_agent() {
    let r = parse_url("ssh:gateway@10.0.0.0:22->http://10.0.0.2:7999", None);
    assert_eq!(r.1, "http://10.0.0.2:7999");
    match r.0 {
        Some(SshCredentialsPlan::SshAgent { ssh_remote_host, ssh_remote_port, ssh_user_name }) => {
            assert_eq!(ssh_remote_host, "10.0.0.0");
            assert_eq!(ssh_remote_port, 22);
            assert_eq!(ssh_user_name, "gateway");
        },
        _ => panic!("expected the SSH agent"),
    }
}

#[test]
fn ssh_url_with_key_for_its_gateway_uses_key() {
    let mut keys = StrMap::new();
    keys.insert("gateway@10.0.0.0:22".to_string(), key("/root/cert", "password"));
    keys.insert("*".to_string(), key("/root/shared", "other"));
    let r = parse_url("ssh:gateway@10.0.0.0:22->http://10.0.0.2:7999", Some(&keys));
    assert_eq!(r.1, "http://10.0.0.2:7999");
    match r.0 {
        Some(SshCredentialsPlan::PrivateKey { ssh_remote_host, ssh_remote_port, ssh_user_name, cert_path, passphrase }) => {
            assert_eq!(ssh_remote_host, "10.0.0.0");
            assert_eq!(ssh_remote_port, 22);
            assert_eq!(ssh_user_name, "gateway");
            assert_eq!(cert_path, "/root/cert");
            assert_eq!(passphrase, Some("password".to_string()));
        },
        _ => panic!("expected a private key"),
    }
}

#[test]
fn ssh_url_with_keys_for_other_gateways_uses_agent() {
    let mut keys = StrMap::new();
    keys.insert("gateway@10.0.0.1:22".to_string(), key("/root/cert-2", "pw"));
    keys.insert("ssh".to_string(), key("/root/cert-3", "pw"));
    let r = parse_url("ssh:gateway@10.0.0.0:22->http://10.0.0.2:7999", Some(&keys));
    assert!(matches!(r.0, Some(SshCredentialsPlan::SshAgent { .. })));
}

#[test]
fn ssh_url_falls_back_to_shared_key() {
    let mut keys = StrMap::new();
    keys.insert("*".to_string(), key("/root/cert", "password"));
    let r = parse_url("ssh:gateway@10.0.0.1:22->http://10.0.0.2:7999", Some(&keys));
    assert_eq!(r.1, "http://10.0.0.2:7999");
    match r.0 {
        Some(SshCredentialsPlan::PrivateKey { ssh_remote_host, cert_path, passphrase, .. }) => {
            assert_eq!(ssh_remote_host, "10.0.0.1");
            assert_eq!(cert_path, "/root/cert");
            assert_eq!(passphrase, Some("password".to_string()));
        },
        _ => panic!("expected the shared key"),
    }
}

#[test]
fn ssh_url_errors() {
    assert!(try_parse_url("ssh:gateway@10.0.0.0:22", None).err() == Some(SshUrlError::InvalidSshUrl));
    assert!(try_parse_url("ssh:a@b:1->c->d", None).err() == Some(SshUrlError::InvalidSshUrl));
    assert!(try_parse_url("ssh:gateway10.0.0.0:22->http://x", None).err() == Some(SshUrlError::MissingHost));
    assert!(try_parse_url("ssh:gateway@10.0.0.0->http://x", None).err() == Some(SshUrlError::MissingPort));
    assert!(try_parse_url("ssh:gateway@10.0.0.0:port->http://x", None).err() == Some(SshUrlError::InvalidPort));
    assert!(try_parse_url("ssh:gateway@10.0.0.0:70000->http://x", None).err() == Some(SshUrlError::InvalidPort));
    assert!(try_parse_url("sshgateway@10.0.0.0:22->http://x", None).err() == Some(SshUrlError::MissingUserName));
    let ok = try_parse_url("ssh:gateway@10.0.0.0:22->http://x", None).ok().unwrap();
    assert_eq!(ok.1, "http://x");
}

#[test]
fn ssh_line_is_the_gateway() {
    assert_eq!(extract_ssh_line("ssh:gateway@10.0.0.0:22"), "gateway@10.0.0.0:22");
    assert_eq!(extract_ssh_line("no-colon"), "no-colon");
    assert_eq!(extract_ssh_line("ssh:"), "");
}

#[test]
fn vm_settings_get_url_forwards_the_plan() {
    let vm = VmSettingsModel { url: "ssh:u@h:2222->http://inner".to_string() };
    let r = vm.get_url(None);
    assert_eq!(r.1, "http://inner");
    assert!(matches!(r.0, Some(SshCredentialsPlan::SshAgent { ssh_remote_port: 2222, .. })));
}

#[test]
fn settings_fl_urls_by_env() {
    let mut envs: StrMap<Vec<VmSettingsModel>> = StrMap::new();
    envs.insert(
        "env-1".to_string(),
        vec![VmSettingsModel { url: "http://a".to_string() }, VmSettingsModel { url: "ssh:u@h:22->http://b".to_string() }],
    );
    envs.insert("env-0".to_string(), vec![]);
    let settings = SettingsModel { envs, ssh_credentials: None };
    let r = settings.get_fl_urls();
    assert_eq!(r.keys, vec!["env-0".to_string(), "env-1".to_string()]);
    assert_eq!(r.vals[0].len(), 0);
    let env1 = &r.vals[1];
    assert_eq!(env1.len(), 2);
    assert_eq!(env1[0].0, "http://a");
    assert!(env1[0].1.is_none());
    assert_eq!(env1[1].0, "http://b");
    assert!(matches!(env1[1].1, Some(SshCredentialsPlan::SshAgent { .. })));
}

#[test]
fn settings_fl_urls_stop_at_bad_url() {
    let mut envs: StrMap<Vec<VmSettingsModel>> = StrMap::new();
    envs.insert("env".to_string(), vec![VmSettingsModel { url: "ssh:broken".to_string() }]);
    let settings = SettingsModel { envs, ssh_credentials: None };
    assert!(settings.try_get_fl_urls().err() == Some(SshUrlError::InvalidSshUrl));
}

#[test]
fn server_settings_urls_and_envs() {
    let s = server_settings_with(&[("stage", &["http://s1"]), ("prod", &["http://p1", "http://p2"])]);
    let urls = s.get_urls();
    assert_eq!(urls.len(), 2);
    assert_eq!(urls[0].0, "prod");
    assert_eq!(urls[0].1, vec!["http://p1".to_string(), "http://p2".to_string()]);
    assert_eq!(urls[1].0, "stage");
    assert_eq!(s.get_envs(), vec!["prod".to_string(), "stage".to_string()]);
}

#[test]
fn server_settings_find_vm_url() {
    let s = server_settings_with(&[("prod", &["http://10.0.0.2:7999", "http://10.0.0.3:7999"])]);
    assert_eq!(s.find_vm_url("prod", "10.0.0.3"), "http://10.0.0.3:7999");
    assert_eq!(s.try_find_vm_url("prod", "10.0.0.3").ok(), Some("http://10.0.0.3:7999".to_string()));
    assert_eq!(s.find_vm_url("prod", "7999"), "http://10.0.0.2:7999");
    assert!(s.try_find_vm_url("prod", "10.0.0.4").err() == Some(UrlLookupError::UrlNotFound));
    assert!(s.try_find_vm_url("stage", "10.0.0.2").err() == Some(UrlLookupError::EnvNotFound));
}

#[test]
fn cert_cache_gives_back_what_was_stored() {
    let mut cache = SshCacheCerts::new();
    assert!(cache.get_cert("/root/cert").is_none());
    cache.insert_cert("/root/cert", "KEY-1".to_string());
    cache.insert_cert("/root/other", "KEY-2".to_string());
    assert_eq!(cache.get_cert("/root/cert"), Some("KEY-1".to_string()));
    assert_eq!(cache.get_cert("/root/other"), Some("KEY-2".to_string()));
}

fn gated_settings() -> server_settings::SettingsModel {
    let mut s = server_settings_with(&[("prod", &["http://p"]), ("stage", &["http://s"]), ("dev", &["http://d"])]);
    let mut users = StrMap::new();
    users.insert("alice@example.com".to_string(), "admins".to_string());
    users.insert("bob@example.com".to_string(), "developers".to_string());
    users.insert("root@example.com".to_string(), "*".to_string());
    users.insert("eve@example.com".to_string(), "nobody".to_string());
    users.insert("ops@example.com".to_string(), "ops".to_string());
    let mut groups = StrMap::new();
    groups.insert("admins".to_string(), vec!["stage".to_string(), "prod".to_string()]);
    groups.insert("developers".to_string(), vec!["stage".to_string()]);
    groups.insert("ops".to_string(), vec!["*".to_string()]);
    s.users = Some(users);
    s.user_groups = Some(groups);
    s
}

#[test]
fn envs_without_user_list_are_visible_to_all() {
    let s = server_settings_with(&[("stage", &["http://s"]), ("prod", &["http://p"])]);
    assert_eq!(s.get_envs_for_user(None), vec!["prod".to_string(), "stage".to_string()]);
    assert_eq!(s.get_envs_for_user(Some("anyone")), vec!["prod".to_string(), "stage".to_string()]);
}

#[test]
fn envs_follow_the_users_group() {
    let s = gated_settings();
    assert_eq!(s.get_envs_for_user(Some("alice@example.com")), vec!["prod".to_string(), "stage".to_string()]);
    assert_eq!(s.get_envs_for_user(Some("bob@example.com")), vec!["stage".to_string()]);
    assert_eq!(
        s.get_envs_for_user(Some("root@example.com")),
        vec!["dev".to_string(), "prod".to_string(), "stage".to_string()]
    );
    assert_eq!(s.get_envs_for_user(Some("ops@example.com")).len(), 0);
}

#[test]
fn unknown_users_and_groups_see_nothing() {
    let s = gated_settings();
    assert_eq!(s.get_envs_for_user(Some("mallory@example.com")).len(), 0);
    assert_eq!(s.get_envs_for_user(Some("eve@example.com")).len(), 0);
    assert_eq!(s.get_envs_for_user(None).len(), 0);
    let mut no_groups = gated_settings();
    no_groups.user_groups = None;
    assert_eq!(no_groups.get_envs_for_user(Some("alice@example.com")).len(), 0);
    assert_eq!(no_groups.get_envs_for_user(Some("root@example.com")).len(), 3);
}

#[test]
fn pass_phrase_asked_once_when_configured() {
    let mut s = server_settings_with(&[("prod", &["http://p"])]);
    assert!(!s.must_prompt_pass_phrase(false));
    s.request_pass_key = Some(true);
    assert!(s.must_prompt_pass_phrase(false));
    assert!(!s.must_prompt_pass_phrase(true));
    s.request_pass_key = Some(false);
    assert!(!s.must_prompt_pass_phrase(false));
}
