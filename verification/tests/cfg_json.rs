use shiguredo_container::cfg_json::container_cfg_json;
use shiguredo_container::container_cfg::{ContainerCfg, MountCfg, PortCfg, ProcessUser};

fn sample() -> ContainerCfg {
    ContainerCfg {
        id: "c1".to_string(),
        hostname: "host".to_string(),
        image_ref: "docker.io/library/alpine:latest".to_string(),
        image_descriptor: r#"{"digest":"sha256:x"}"#.to_string(),
        mounts: vec![
            MountCfg {
                source: "/h".to_string(),
                destination: "/c".to_string(),
                fs_type: "virtiofs".to_string(),
                volume_name: None,
                options: vec!["ro".to_string()],
            },
            MountCfg {
                source: "/vol/v.img".to_string(),
                destination: "/data".to_string(),
                fs_type: "volume".to_string(),
                volume_name: Some("v".to_string()),
                options: vec!["rw".to_string()],
            },
        ],
        ports: vec![PortCfg {
            host_address: "0.0.0.0".to_string(),
            host_port: 8080,
            container_port: 80,
            proto: "tcp".to_string(),
        }],
        init_exe: "/bin/sh".to_string(),
        init_args: vec!["-c".to_string(), "echo \"hi\"".to_string()],
        init_env: vec!["A=1".to_string()],
        working_directory: "/".to_string(),
        use_init: false,
        cap_add: vec![],
        cap_drop: vec!["NET_RAW".to_string()],
        shm_size: Some(1024),
        user: ProcessUser::Id { uid: 1000, gid: 0 },
        network: "default".to_string(),
        architecture: "arm64".to_string(),
        rosetta: false,
        ssh: false,
        read_only: true,
        labels: vec![("k".to_string(), "v".to_string())],
        cpus: 4,
        terminal: false,
    }
}

#[test]
fn container_cfg_json_writes_the_payload() {
    let json = container_cfg_json(&sample(), "1.5");
    let expected = [
        r#"{"id":"c1","image":{"reference":"docker.io/library/alpine:latest","descriptor":{"digest":"sha256:x"}},"#,
        r#""mounts":[{"type":{"virtiofs":{}},"source":"/h","destination":"/c","options":["ro"]},"#,
        r#"{"type":{"volume":{"name":"v","format":"raw","cache":"auto","sync":"fsync"}},"source":"/vol/v.img","destination":"/data","options":["rw"]}],"#,
        r#""publishedPorts":[{"hostAddress":"0.0.0.0","hostPort":8080,"containerPort":80,"proto":"tcp","count":1}],"#,
        r#""publishedSockets":[],"labels":{"k":"v"},"sysctls":{},"#,
        r#""networks":[{"network":"default","options":{"hostname":"host","mtu":1280}}],"#,
        r#""dns":{"nameservers":[],"options":[],"searchDomains":[]},"rosetta":false,"#,
        r#""initProcess":{"executable":"/bin/sh","arguments":["-c","echo \"hi\""],"environment":["A=1"],"workingDirectory":"/","terminal":false,"user":{"id":{"uid":1000,"gid":0}},"supplementalGroups":[],"rlimits":[]},"#,
        r#""platform":{"os":"linux","architecture":"arm64","variant":null},"#,
        r#""resources":{"cpus":4,"memoryInBytes":1073741824,"storage":null,"cpuOverhead":1},"#,
        r#""runtimeHandler":"container-runtime-linux","virtualization":false,"ssh":false,"readOnly":true,"useInit":false,"#,
        r#""capAdd":[],"capDrop":["NET_RAW"],"shmSize":1024,"stopSignal":null,"creationDate":1.5}"#,
    ]
    .concat();
    assert_eq!(json, expected);
    assert!(nojson::RawJson::parse(&json).is_ok());
}

#[test]
fn container_cfg_json_raw_user_tmpfs_and_no_shm_size() {
    let mut cfg = sample();
    cfg.user = ProcessUser::Raw { user_string: "nobody".to_string() };
    cfg.shm_size = None;
    cfg.mounts = vec![MountCfg {
        source: "tmpfs".to_string(),
        destination: "/t".to_string(),
        fs_type: "tmpfs".to_string(),
        volume_name: None,
        options: vec![],
    }];
    let json = container_cfg_json(&cfg, "null");
    assert!(json.contains(r#""user":{"raw":{"userString":"nobody"}}"#));
    assert!(json.contains(r#""shmSize":null"#));
    assert!(json.contains(r#""mounts":[{"type":{"tmpfs":{}},"source":"tmpfs","destination":"/t","options":[]}]"#));
    assert!(json.ends_with(r#""creationDate":null}"#));
}
