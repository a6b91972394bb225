use docker_tray::apple::{
    container_info, create_container, create_container_args, frame_listing, get_container_env,
    get_container_logs, get_container_logs_args, get_container_logs_since_args, get_container_mounts,
    image_info, inspect_document, inspect_frame, list_containers, list_images, list_networks,
    list_volumes, listing, listing_error, parse_mount, pull_image_args, remove_container_args,
    remove_image_args, restart_container, restart_container_args, system_start, tags_of,
    tolerant_listing, InspectDoc, InspectText, Listing, ListingError,
};
use docker_tray::cli::CliOutput;
use docker_tray::docker::{CreateContainerInput, MountInfo, PortMapping, VolumeMapping};
use docker_tray::json::JsonValue;

fn strings(v: &[&str]) -> Vec<String> {
    v.iter().map(|s| s.to_string()).collect()
}

fn out(stdout: &str, stderr: &str, success: bool) -> CliOutput {
    CliOutput { stdout: stdout.to_string(), stderr: stderr.to_string(), success, status: String::new() }
}

fn s(v: &str) -> JsonValue {
    JsonValue::Str(v.to_string())
}

fn num(i: i64) -> JsonValue {
    JsonValue::Number { text: i.to_string(), integer: Some(i) }
}

fn obj(entries: Vec<(&str, JsonValue)>) -> JsonValue {
    JsonValue::Object {
        entries: entries.into_iter().map(|(k, v)| (k.to_string(), v)).collect(),
        text: "{}".to_string(),
    }
}

fn arr(items: Vec<JsonValue>) -> JsonValue {
    JsonValue::Array { items, text: "[]".to_string() }
}

#[test]
fn listings_are_framed() {
    assert_eq!(frame_listing("  \n"), Listing::Empty);
    assert_eq!(frame_listing(" [{\"id\":1}]\n"), Listing::Array("[{\"id\":1}]".to_string()));
    assert_eq!(frame_listing("{\"a\":1}\n\n  \n{\"b\":2}\n"), Listing::Lines(strings(&["{\"a\":1}", "{\"b\":2}"])));
    assert_eq!(listing(Err("Failed to run container CLI: x".to_string())), Err("Failed to run container CLI: x".to_string()));
    assert_eq!(listing(Ok(out("", "warn\nError: not running\n\n", false))), Err("Error: not running".to_string()));
    assert_eq!(listing(Ok(out("", "", false))), Err("Unknown container CLI error".to_string()));
}

#[test]
fn missing_features_give_empty_listing() {
    assert_eq!(tolerant_listing(Ok(out("", "Error: Unknown command 'volume'\n", false))), Ok(Listing::Empty));
    assert_eq!(tolerant_listing(Ok(out("", "No such plugin\n", false))), Ok(Listing::Empty));
    assert_eq!(tolerant_listing(Ok(out("", "Error: timeout\n", false))), Err("Error: timeout".to_string()));
}

#[test]
fn listing_errors() {
    assert_eq!(
        listing_error("list", ListingError { per_line: false, message: "EOF".to_string() }),
        "Invalid list JSON: EOF"
    );
    assert_eq!(
        list_volumes(Err(ListingError { per_line: true, message: "bad".to_string() })),
        Err("Invalid volume list JSON line: bad".to_string())
    );
}

#[test]
fn containers_from_json() {
    let c = container_info(&obj(vec![
        ("containerID", s("0123456789abcdef")),
        ("image", JsonValue::Null),
        ("imageRef", s("docker.io/nginx:latest")),
        ("status", s("running")),
        ("createdAt", num(1700)),
    ]));
    assert_eq!(c.id, "0123456789ab");
    assert_eq!(c.names, strings(&["0123456789abcdef"]));
    assert_eq!(c.image, "docker.io/nginx:latest");
    assert_eq!(c.state, "running");
    assert_eq!(c.status, "running");
    assert_eq!(c.created, 1700);
    assert!(c.ports.is_empty() && c.labels.is_empty());
    let groups = list_containers(Ok(vec![obj(vec![("id", s("a"))])])).unwrap();
    assert_eq!(groups.len(), 1);
    assert_eq!(groups[0].name, "Standalone");
    assert_eq!(list_containers(Ok(vec![])), Ok(vec![]));
}

#[test]
fn images_from_json() {
    let i = image_info(&obj(vec![
        ("digest", s("sha256:abcdef0123456789")),
        ("reference", arr(vec![s("nginx:latest"), num(3), s("")])),
        ("fullSize", num(99)),
    ]));
    assert_eq!(i.id, "abcdef012345");
    assert_eq!(i.repo_tags, strings(&["nginx:latest"]));
    assert_eq!(i.size, 99);
    assert_eq!(i.created, 0);
    let named = image_info(&obj(vec![("name", s("alpine:3"))]));
    assert_eq!(named.repo_tags, strings(&["alpine:3"]));
    let none = image_info(&obj(vec![("id", s("x"))]));
    assert!(none.repo_tags.is_empty());
    assert_eq!(tags_of(Some(&s("a"))), strings(&["a"]));
    assert_eq!(tags_of(None), Vec::<String>::new());
    assert_eq!(list_images(Ok(vec![])), Ok(vec![]));
}

#[test]
fn volumes_and_networks_from_json() {
    let v = list_volumes(Ok(vec![obj(vec![("label", s("data")), ("type", s("Local")), ("path", s("/v"))])])).unwrap();
    assert_eq!(v[0].name, "data");
    assert_eq!(v[0].driver, "local");
    assert_eq!(v[0].mountpoint, "/v");
    let n = list_networks(Ok(vec![obj(vec![
        ("id", s("default-network-id")),
        ("plugin", s("NAT")),
        ("scope", s("Local")),
        ("containers", arr(vec![s("a"), s("b")])),
    ])]))
    .unwrap();
    assert_eq!(n[0].id, "default-netw");
    assert_eq!(n[0].name, "default-network-id");
    assert_eq!(n[0].driver, "nat");
    assert_eq!(n[0].scope, "local");
    assert_eq!(n[0].containers, 2);
}

#[test]
fn inspect_framing() {
    assert_eq!(inspect_frame(Ok(out(" [ {} ]\n", "", true))), Ok(InspectText::Array("[ {} ]".to_string())));
    assert_eq!(inspect_frame(Ok(out("{}\n", "", true))), Ok(InspectText::Single("{}".to_string())));
    assert_eq!(inspect_frame(Ok(out("", "not found\n", false))), Err("not found".to_string()));
    assert_eq!(inspect_document(Ok(InspectDoc::Many(vec![]))), Err("Empty inspect result".to_string()));
    assert_eq!(inspect_document(Ok(InspectDoc::Many(vec![s("a"), s("b")]))), Ok(s("a")));
    assert_eq!(inspect_document(Ok(InspectDoc::One(s("c")))), Ok(s("c")));
    assert_eq!(inspect_document(Err("EOF".to_string())), Err("Invalid inspect JSON: EOF".to_string()));
}

#[test]
fn environment_search() {
    let doc = obj(vec![(
        "configuration",
        obj(vec![("initProcess", obj(vec![("environment", arr(vec![s("PATH=/bin"), num(1)]))]))]),
    )]);
    assert_eq!(get_container_env(Ok(doc)), Ok(strings(&["PATH=/bin", "1"])));
    let preferred = obj(vec![
        ("other", obj(vec![("env", arr(vec![s("A=1")]))])),
        ("config", obj(vec![("env", arr(vec![s("B=2")]))])),
    ]);
    assert_eq!(get_container_env(Ok(preferred)), Ok(strings(&["B=2"])));
    let empty_first = obj(vec![("env", arr(vec![])), ("x", obj(vec![("env", arr(vec![s("C=3")]))]))]);
    assert_eq!(get_container_env(Ok(empty_first)), Ok(strings(&["C=3"])));
    assert_eq!(get_container_env(Ok(obj(vec![]))), Ok(vec![]));
    assert_eq!(get_container_env(Err("e".to_string())), Err("e".to_string()));
}

#[test]
fn mounts_from_json() {
    let m = parse_mount(&obj(vec![
        ("source", s("/Users/me/src")),
        ("destination", s("/app")),
        ("readWrite", s("ro")),
    ]))
    .unwrap();
    assert_eq!(
        m,
        MountInfo {
            mount_type: "bind".to_string(),
            source: "/Users/me/src".to_string(),
            destination: "/app".to_string(),
            mode: "".to_string(),
            rw: false,
        }
    );
    assert_eq!(parse_mount(&obj(vec![("type", s("virtiofs"))])), None);
    let doc = obj(vec![
        ("mounts", arr(vec![
            obj(vec![("source", s("/Users/me/a")), ("destination", s("/a"))]),
            obj(vec![("source", s("/proc")), ("destination", s("/p"))]),
        ])),
        ("configuration", obj(vec![("volumes", arr(vec![obj(vec![
            ("hostPath", s("/Users/me/b")),
            ("containerPath", s("/b")),
            ("type", s("BIND")),
            ("rw", JsonValue::Bool(true)),
        ])]))])),
    ]);
    let ms = get_container_mounts(Ok(doc)).unwrap();
    assert_eq!(ms.iter().map(|m| m.source.clone()).collect::<Vec<_>>(), strings(&["/Users/me/a", "/Users/me/b"]));
    assert_eq!(ms[1].mount_type, "bind");
}

#[test]
fn backend_and_container_commands() {
    assert_eq!(system_start(Ok(out("", "", true))), Ok(()));
    assert_eq!(
        system_start(Ok(out("", "Error: denied\n", false))),
        Err("container system start failed: Error: denied".to_string())
    );
    assert_eq!(restart_container_args("web"), (strings(&["stop", "web"]), strings(&["start", "web"])));
    assert_eq!(restart_container(Ok(out("", "oops\n", false))), Err("oops".to_string()));
    assert_eq!(remove_container_args("web", true), strings(&["delete", "--force", "web"]));
    assert_eq!(remove_container_args("web", false), strings(&["delete", "web"]));
    assert_eq!(remove_image_args("nginx"), strings(&["image", "delete", "--force", "nginx"]));
    assert_eq!(pull_image_args("nginx"), strings(&["image", "pull", "--progress", "none", "nginx"]));
}

#[test]
fn create_arguments_and_id() {
    let input = CreateContainerInput {
        name: Some("web".to_string()),
        image: "nginx".to_string(),
        ports: vec![PortMapping { host: "8080".to_string(), container: "80".to_string() }],
        volumes: vec![VolumeMapping { host: "/src".to_string(), container: "/app".to_string() }],
        env: strings(&["A=1"]),
        auto_start: true,
    };
    assert_eq!(
        create_container_args(&input),
        strings(&["run", "--name", "web", "-p", "8080:80", "-v", "/src:/app", "-e", "A=1", "-d", "nginx"])
    );
    assert_eq!(create_container(&input, Ok(out("ignored\n", "", true))), Ok("web".to_string()));
    let quiet = CreateContainerInput {
        name: None,
        image: "alpine".to_string(),
        ports: vec![],
        volumes: vec![],
        env: vec![],
        auto_start: false,
    };
    assert_eq!(create_container_args(&quiet), strings(&["create", "alpine"]));
    assert_eq!(create_container(&quiet, Ok(out(" 1234abcd \n", "", true))), Ok("1234abcd".to_string()));
    assert_eq!(create_container(&quiet, Ok(out("", "no image\n", false))), Err("no image".to_string()));
    let named_later = CreateContainerInput {
        name: Some("db".to_string()),
        image: "postgres".to_string(),
        ports: vec![PortMapping { host: "5432".to_string(), container: "5432".to_string() }],
        volumes: vec![],
        env: strings(&["POSTGRES_PASSWORD=x"]),
        auto_start: false,
    };
    assert_eq!(
        create_container_args(&named_later),
        strings(&["create", "--name", "db", "-p", "5432:5432", "-e", "POSTGRES_PASSWORD=x", "postgres"])
    );
}

#[test]
fn log_commands_and_lines() {
    assert_eq!(get_container_logs_args("web", None), strings(&["logs", "web"]));
    assert_eq!(get_container_logs_args("web", Some("all")), strings(&["logs", "web"]));
    assert_eq!(get_container_logs_args("web", Some("50")), strings(&["logs", "-n", "50", "web"]));
    assert_eq!(get_container_logs_since_args("web", 17, true), strings(&["logs", "-n", "200", "web"]));
    assert_eq!(get_container_logs(Ok(out("a\nb\n", "c\n", true))), Ok(strings(&["a", "b", "c"])));
    assert_eq!(get_container_logs(Ok(out("a\n\n", "", true))), Ok(strings(&["a"])));
    assert_eq!(get_container_logs(Ok(out("", "", false))), Err("Unknown container CLI error".to_string()));
}
