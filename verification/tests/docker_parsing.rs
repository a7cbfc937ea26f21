use portview::docker::{
    docker_brief_tag, docker_owner_json, parse_port_segment, parse_ps_output, short_container_id,
    DockerPortOwner,
};

#[test]
fn parse_port_segment_ipv4() {
    let parsed = parse_port_segment("0.0.0.0:8080->80/tcp");
    assert_eq!(parsed, Some((8080, 80, "TCP".to_string())));
}

#[test]
fn parse_port_segment_ipv6() {
    let parsed = parse_port_segment("[::]:8443->443/tcp");
    assert_eq!(parsed, Some((8443, 443, "TCP".to_string())));
}

#[test]
fn parse_port_segment_range() {
    let parsed = parse_port_segment("0.0.0.0:49153-49155->8080-8082/tcp");
    assert_eq!(parsed, Some((49153, 8080, "TCP".to_string())));
}

#[test]
fn parse_port_segment_unpublished_is_ignored() {
    let parsed = parse_port_segment("80/tcp");
    assert_eq!(parsed, None);
}

#[test]
fn parse_ps_output_builds_map_and_deduplicates_ipv4_ipv6_entries() {
    let input = "\
abc123\tweb\tnginx:latest\t0.0.0.0:8080->80/tcp, :::8080->80/tcp
def456\tdb\tpostgres:16\t127.0.0.1:5432->5432/tcp
ghi789\tworker\tworker:latest\t
";
    let map = parse_ps_output(input);

    assert_eq!(map.len(), 2);

    let web = map.get(&8080).expect("expected 8080 mapping");
    assert_eq!(web.len(), 1);
    assert_eq!(web[0].container_name, "web");
    assert_eq!(web[0].container_port, 80);

    let db = map.get(&5432).expect("expected 5432 mapping");
    assert_eq!(db.len(), 1);
    assert_eq!(db[0].container_name, "db");
    assert_eq!(db[0].image, "postgres:16");
}

#[test]
fn short_container_id_truncates_to_12() {
    assert_eq!(short_container_id("0123456789abcdef"), "0123456789ab");
    assert_eq!(short_container_id("shortid"), "shortid");
}

#[test]
fn brief_tag_names_single_owner() {
    let map = parse_ps_output("abc\tweb\tnginx\t0.0.0.0:8080->80/tcp\n");
    assert_eq!(docker_brief_tag(8080, &map), Some("web".to_string()));
    assert_eq!(docker_brief_tag(81, &map), None);
}

#[test]
fn brief_tag_counts_extra_owners() {
    let map =
        parse_ps_output("abc\tweb\tnginx\t0.0.0.0:8080->80/tcp\ndef\tweb2\tnginx\t:::8080->80/udp\n");
    assert_eq!(docker_brief_tag(8080, &map), Some("web+1".to_string()));
}

#[test]
fn owner_json_escapes_fields() {
    let owner = DockerPortOwner {
        container_id: "abc".to_string(),
        container_name: "we\"b".to_string(),
        image: "nginx:latest".to_string(),
        container_port: 80,
        protocol: "TCP".to_string(),
    };
    assert_eq!(
        docker_owner_json(&owner),
        r#"{"container_id":"abc","container":"we\"b","image":"nginx:latest","container_port":80,"protocol":"TCP"}"#
    );
}
