use docker_tray::cli::CliOutput;
use docker_tray::docker::{
    absorb_chunk, check_port, compose_up, compose_up_args, compose_up_check, compose_up_fallback_args,
    container_from_summary, create_container, create_container_created, create_container_started,
    extract_compose_project, CreateStep, get_container_mounts,
    group_containers, is_host_visible, list_containers, list_images, list_networks, list_volumes,
    logs_tail, mount_kind_name, protocol_text, pull_image_reference, strip_slashes, validate_container_id,
    ContainerInfo, ContainerSummary, CreateContainerInput, ImageSummary, MountInfo, MountKind,
    MountSummary, NetworkSummary, PortMapping, PortProtocol, PortSummary, VolumeMapping, VolumeSummary,
};

fn strings(v: &[&str]) -> Vec<String> {
    v.iter().map(|s| s.to_string()).collect()
}

fn labels(pairs: &[(&str, &str)]) -> Vec<(String, String)> {
    pairs.iter().map(|(k, v)| (k.to_string(), v.to_string())).collect()
}

fn container(id: &str, project: Option<&str>) -> ContainerInfo {
    ContainerInfo {
        id: id.to_string(),
        names: vec![id.to_string()],
        image: "img".to_string(),
        state: "running".to_string(),
        status: "Up".to_string(),
        ports: vec![],
        created: 1,
        labels: match project {
            Some(p) => labels(&[("com.docker.compose.project", p)]),
            None => vec![],
        },
    }
}

fn summary(id: &str, project: Option<&str>) -> ContainerSummary {
    ContainerSummary {
        id: Some(id.to_string()),
        names: Some(vec![format!("/{}", id)]),
        image: Some("nginx".to_string()),
        state: Some("running".to_string()),
        status: Some("Up 2 hours".to_string()),
        ports: None,
        created: Some(100),
        labels: project.map(|p| labels(&[("com.docker.compose.project", p)])),
    }
}

#[test]
fn container_ids_are_alphanumeric() {
    assert_eq!(validate_container_id("abc123DEF"), Ok(()));
    assert_eq!(validate_container_id(""), Err("Invalid container ID".to_string()));
    assert_eq!(validate_container_id("abc;rm"), Err("Invalid container ID".to_string()));
    assert_eq!(validate_container_id("my-container"), Err("Invalid container ID".to_string()));
    assert_eq!(validate_container_id("é1"), Err("Invalid container ID".to_string()));
}

#[test]
fn compose_project_label() {
    assert_eq!(
        extract_compose_project(&labels(&[("a", "b"), ("com.docker.compose.project", "shop")])),
        Some("shop".to_string())
    );
    assert_eq!(extract_compose_project(&labels(&[("a", "b")])), None);
    assert_eq!(extract_compose_project(&vec![]), None);
}

#[test]
fn summary_to_container() {
    let s = ContainerSummary {
        id: Some("0123456789abcdef0123".to_string()),
        names: Some(strings(&["//web", "db"])),
        image: None,
        state: Some("exited".to_string()),
        status: None,
        ports: Some(vec![
            PortSummary { private_port: 80, public_port: Some(8080), typ: Some(PortProtocol::Tcp) },
            PortSummary { private_port: 53, public_port: None, typ: None },
        ]),
        created: None,
        labels: None,
    };
    let c = container_from_summary(s);
    assert_eq!(c.id, "0123456789ab");
    assert_eq!(c.names, strings(&["web", "db"]));
    assert_eq!(c.image, "");
    assert_eq!(c.state, "exited");
    assert_eq!(c.status, "");
    assert_eq!(c.ports.len(), 2);
    assert_eq!(c.ports[0].private_port, 80);
    assert_eq!(c.ports[0].public_port, Some(8080));
    assert_eq!(c.ports[0].port_type, "TCP");
    assert_eq!(c.ports[1].port_type, "");
    assert_eq!(c.created, 0);
    assert!(c.labels.is_empty());
}

#[test]
fn protocol_names() {
    assert_eq!(protocol_text(PortProtocol::Udp), "UDP");
    assert_eq!(protocol_text(PortProtocol::Empty), "EMPTY");
    assert_eq!(strip_slashes("//a/b"), "a/b");
}

#[test]
fn grouping_sorts_projects_and_puts_standalone_last() {
    let cs = vec![
        container("a1", Some("zeta")),
        container("s1", None),
        container("b1", Some("alpha")),
        container("a2", Some("zeta")),
        container("s2", None),
    ];
    let gs = group_containers(cs);
    assert_eq!(gs.len(), 3);
    assert_eq!(gs[0].name, "alpha");
    assert_eq!(gs[0].containers.iter().map(|c| c.id.clone()).collect::<Vec<_>>(), strings(&["b1"]));
    assert_eq!(gs[1].name, "zeta");
    assert_eq!(gs[1].containers.iter().map(|c| c.id.clone()).collect::<Vec<_>>(), strings(&["a1", "a2"]));
    assert_eq!(gs[2].name, "Standalone");
    assert_eq!(gs[2].containers.iter().map(|c| c.id.clone()).collect::<Vec<_>>(), strings(&["s1", "s2"]));
    assert_eq!(gs.iter().map(|g| g.containers.len()).sum::<usize>(), 5);
}

#[test]
fn grouping_without_standalone_or_containers() {
    let gs = group_containers(vec![container("a", Some("p"))]);
    assert_eq!(gs.len(), 1);
    assert_eq!(gs[0].name, "p");
    assert!(group_containers(vec![]).is_empty());
}

#[test]
fn list_containers_groups_summaries() {
    let r = list_containers(Ok(vec![summary("aaa", Some("web")), summary("bbb", None)])).unwrap();
    assert_eq!(r.len(), 2);
    assert_eq!(r[0].name, "web");
    assert_eq!(r[0].containers[0].names, strings(&["aaa"]));
    assert_eq!(r[1].name, "Standalone");
    assert_eq!(list_containers(Err("connection refused".to_string())), Err("connection refused".to_string()));
}

#[test]
fn list_images_cuts_ids() {
    let r = list_images(Ok(vec![ImageSummary {
        id: "sha256:abcdef0123456789ffff".to_string(),
        repo_tags: strings(&["nginx:latest"]),
        size: 42,
        created: 7,
    }]))
    .unwrap();
    assert_eq!(r[0].id, "abcdef012345");
    assert_eq!(r[0].repo_tags, strings(&["nginx:latest"]));
    assert_eq!((r[0].size, r[0].created), (42, 7));
    assert_eq!(list_images(Err("x".to_string())), Err("x".to_string()));
}

#[test]
fn list_volumes_absent_list_is_empty() {
    assert_eq!(list_volumes(Ok(None)), Ok(vec![]));
    let r = list_volumes(Ok(Some(vec![VolumeSummary {
        name: "data".to_string(),
        driver: "local".to_string(),
        mountpoint: "/var/lib/docker/volumes/data".to_string(),
        labels: labels(&[("k", "v")]),
    }])))
    .unwrap();
    assert_eq!(r[0].name, "data");
    assert_eq!(r[0].driver, "local");
    assert_eq!(r[0].labels, labels(&[("k", "v")]));
    assert_eq!(list_volumes(Err("e".to_string())), Err("e".to_string()));
}

#[test]
fn list_networks_defaults() {
    let r = list_networks(Ok(vec![NetworkSummary {
        id: Some("0123456789abcdef".to_string()),
        name: Some("bridge".to_string()),
        driver: None,
        scope: Some("local".to_string()),
        containers: None,
    }]))
    .unwrap();
    assert_eq!(r[0].id, "0123456789ab");
    assert_eq!(r[0].name, "bridge");
    assert_eq!(r[0].driver, "");
    assert_eq!(r[0].scope, "local");
    assert_eq!(r[0].containers, 0);
}

#[test]
fn mounts_keep_visible_bind_mounts() {
    let ms = vec![
        MountSummary {
            typ: Some(MountKind::Bind),
            source: Some("/Users/me/src".to_string()),
            destination: Some("/app".to_string()),
            mode: None,
            rw: None,
        },
        MountSummary {
            typ: Some(MountKind::Bind),
            source: Some("/var/run/docker.sock".to_string()),
            destination: Some("/var/run/docker.sock".to_string()),
            mode: None,
            rw: Some(false),
        },
        MountSummary {
            typ: Some(MountKind::Volume),
            source: Some("/var/lib/docker/volumes/x".to_string()),
            destination: Some("/data".to_string()),
            mode: None,
            rw: None,
        },
        MountSummary { typ: Some(MountKind::Bind), source: None, destination: None, mode: None, rw: None },
    ];
    let r = get_container_mounts(Ok(Some(ms))).unwrap();
    assert_eq!(
        r,
        vec![MountInfo {
            mount_type: "bind".to_string(),
            source: "/Users/me/src".to_string(),
            destination: "/app".to_string(),
            mode: "".to_string(),
            rw: true,
        }]
    );
    assert_eq!(get_container_mounts(Ok(None)), Ok(vec![]));
    assert_eq!(get_container_mounts(Err("no such container".to_string())), Err("no such container".to_string()));
    assert_eq!(mount_kind_name(MountKind::Tmpfs), "tmpfs");
}

#[test]
fn host_visibility() {
    let m = |t: &str, s: &str| MountInfo {
        mount_type: t.to_string(),
        source: s.to_string(),
        destination: "/d".to_string(),
        mode: String::new(),
        rw: true,
    };
    assert!(is_host_visible(&m("bind", "/Users/me")));
    assert!(!is_host_visible(&m("volume", "/Users/me")));
    assert!(!is_host_visible(&m("bind", "/proc/1")));
    assert!(!is_host_visible(&m("bind", "/sys")));
    assert!(!is_host_visible(&m("bind", "/dev/null")));
}

#[test]
fn image_references() {
    assert_eq!(pull_image_reference("nginx:1.25"), ("nginx".to_string(), "1.25".to_string()));
    assert_eq!(pull_image_reference("nginx"), ("nginx".to_string(), "latest".to_string()));
    assert_eq!(
        pull_image_reference("localhost:5000/app:v1"),
        ("localhost".to_string(), "5000/app:v1".to_string())
    );
}

#[test]
fn streamed_chunks() {
    let mut lines = vec![];
    assert_eq!(absorb_chunk(&mut lines, Ok("a".to_string())), Ok(()));
    assert_eq!(absorb_chunk(&mut lines, Err("broken".to_string())), Err("broken".to_string()));
    assert_eq!(lines, strings(&["a"]));
    assert_eq!(logs_tail(None), "100");
    assert_eq!(logs_tail(Some("all".to_string())), "all");
}

#[test]
fn port_checks() {
    let p = |h: &str, c: &str| PortMapping { host: h.to_string(), container: c.to_string() };
    assert_eq!(check_port(&p("8080", "80")), Ok(()));
    assert_eq!(check_port(&p("http", "80")), Err("Invalid host port: http".to_string()));
    assert_eq!(check_port(&p("8080", "70000")), Err("Invalid container port: 70000".to_string()));
    assert_eq!(check_port(&p("0", "80")), Err("Port must be between 1 and 65535".to_string()));
    assert_eq!(check_port(&p("", "80")), Err("Invalid host port: ".to_string()));
}

#[test]
fn create_container_configuration() {
    let input = CreateContainerInput {
        name: Some("web".to_string()),
        image: "nginx".to_string(),
        ports: vec![
            PortMapping { host: "8080".to_string(), container: "80".to_string() },
            PortMapping { host: "8443".to_string(), container: "443".to_string() },
            PortMapping { host: "9090".to_string(), container: "80".to_string() },
        ],
        volumes: vec![VolumeMapping { host: "/src".to_string(), container: "/app".to_string() }],
        env: strings(&["A=1"]),
        auto_start: true,
    };
    let cfg = create_container(&input).unwrap();
    assert_eq!(cfg.name, Some("web".to_string()));
    assert_eq!(cfg.image, "nginx");
    assert_eq!(cfg.exposed_ports, strings(&["80/tcp", "443/tcp"]));
    assert_eq!(cfg.port_bindings.len(), 2);
    assert_eq!(cfg.port_bindings[0].container_port, "80/tcp");
    assert_eq!(cfg.port_bindings[0].host_port, "9090");
    assert_eq!(cfg.port_bindings[0].host_ip, "0.0.0.0");
    assert_eq!(cfg.port_bindings[1].host_port, "8443");
    assert_eq!(cfg.binds, strings(&["/src:/app"]));
    assert_eq!(cfg.env, strings(&["A=1"]));
}

#[test]
fn create_container_refuses_bad_port() {
    let input = CreateContainerInput {
        name: None,
        image: "nginx".to_string(),
        ports: vec![
            PortMapping { host: "8080".to_string(), container: "80".to_string() },
            PortMapping { host: "99999".to_string(), container: "80".to_string() },
        ],
        volumes: vec![],
        env: vec![],
        auto_start: false,
    };
    assert_eq!(create_container(&input), Err("Invalid host port: 99999".to_string()));
}

#[test]
fn compose_checks_and_arguments() {
    assert_eq!(compose_up_check("/x/docker-compose.yml", true), Ok(()));
    assert_eq!(compose_up_check("/x/compose.yaml", true), Ok(()));
    assert_eq!(compose_up_check("/x/compose.json", true), Err("File must have .yml or .yaml extension".to_string()));
    assert_eq!(compose_up_check("/x/Makefile", true), Err("File must have .yml or .yaml extension".to_string()));
    assert_eq!(compose_up_check("/x/a.yml", false), Err("File not found: /x/a.yml".to_string()));
    assert_eq!(compose_up_args("/x/a.yml"), strings(&["compose", "-f", "/x/a.yml", "up", "-d"]));
    assert_eq!(compose_up_fallback_args("/x/a.yml"), strings(&["-f", "/x/a.yml", "up", "-d"]));
}

#[test]
fn compose_answers() {
    let o = |out: &str, err: &str, ok: bool| CliOutput {
        stdout: out.to_string(),
        stderr: err.to_string(),
        success: ok,
        status: String::new(),
    };
    assert_eq!(compose_up(Ok(o("a\n", "Started\n", true))), Ok("a\nStarted\n".to_string()));
    assert_eq!(compose_up(Ok(o("a\n", "bad yaml\n", false))), Err("bad yaml\n".to_string()));
    assert_eq!(compose_up(Err("not found".to_string())), Err("not found".to_string()));
}

#[test]
fn created_container_is_started_only_when_asked() {
    let input = |auto: bool| CreateContainerInput {
        name: None,
        image: "nginx".to_string(),
        ports: vec![],
        volumes: vec![],
        env: vec![],
        auto_start: auto,
    };
    assert_eq!(create_container_created(&input(true), Ok("abc".to_string())), CreateStep::Start("abc".to_string()));
    assert_eq!(
        create_container_created(&input(false), Ok("abc".to_string())),
        CreateStep::Finished(Ok("abc".to_string()))
    );
    assert_eq!(
        create_container_created(&input(true), Err("no such image".to_string())),
        CreateStep::Finished(Err("no such image".to_string()))
    );
    assert_eq!(create_container_started("abc".to_string(), Ok(())), Ok("abc".to_string()));
    assert_eq!(create_container_started("abc".to_string(), Err("port taken".to_string())), Err("port taken".to_string()));
}
