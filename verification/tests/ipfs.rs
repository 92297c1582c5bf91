use qcrypt::ipfs::{pinata_cid, pinata_multipart_footer, pinata_multipart_header, resolve_ipfs, resolve_ipfs_tag, upload_to_ipfs, IpfsRoute};

fn url(r: IpfsRoute) -> String {
    match r {
        IpfsRoute::Url(u) => u,
        IpfsRoute::Tag(t) => panic!("unexpected tag {}", t),
    }
}

#[test]
fn default_gateway() {
    assert_eq!(url(resolve_ipfs("QmCid", None)), "https://ipfs.io/ipfs/QmCid");
}

#[test]
fn gateway_url_overrides() {
    assert_eq!(url(resolve_ipfs("Qm", Some("http://127.0.0.1:8080"))), "http://127.0.0.1:8080/ipfs/Qm");
    assert_eq!(url(resolve_ipfs("Qm", Some("http://127.0.0.1:8080/"))), "http://127.0.0.1:8080/ipfs/Qm");
    assert_eq!(url(resolve_ipfs("Qm", Some("https://gw.example/ipfs/"))), "https://gw.example/ipfs/Qm");
    assert_eq!(url(resolve_ipfs("Qm", Some("https://gw.example/ipfs"))), "https://gw.example/ipfs/Qm");
}

#[test]
fn gateway_tags_are_lowercased() {
    match resolve_ipfs("Qm", Some("CloudFlare")) {
        IpfsRoute::Tag(t) => assert_eq!(t, "cloudflare"),
        IpfsRoute::Url(u) => panic!("unexpected url {}", u),
    }
}

#[test]
fn tag_lookup_in_the_gateway_list() {
    let list = r#"["https://ipfs.io", 7, "https://CLOUDFLARE-ipfs.com/", "https://cloudflare.example"]"#;
    assert_eq!(resolve_ipfs_tag("Qm", "cloudflare", list).unwrap(), "https://CLOUDFLARE-ipfs.com/ipfs/Qm");
    assert_eq!(resolve_ipfs_tag("Qm", "io", list).unwrap(), "https://ipfs.io/ipfs/Qm");
    assert_eq!(
        resolve_ipfs_tag("Qm", "zzz", list).unwrap_err(),
        "Error: Could not find any active public gateway matching the tag: 'zzz'"
    );
    assert_eq!(
        resolve_ipfs_tag("Qm", "io", "{\"a\":\"https://ipfs.io\"}").unwrap_err(),
        "Error: Could not find any active public gateway matching the tag: 'io'"
    );
    assert_eq!(resolve_ipfs_tag("Qm", "io", "not json").unwrap_err(), "Error parsing live IPFS gateway JSON.");
}

#[test]
fn pinata_request() {
    let r = upload_to_ipfs(b"DATA", "tok");
    assert_eq!(r.url, "https://api.pinata.cloud/pinning/pinFileToIPFS");
    assert_eq!(r.authorization, "Bearer tok");
    assert_eq!(r.content_type, "multipart/form-data; boundary=------------------------Boundary123456789");
    let header = "--------------------------Boundary123456789\r\nContent-Disposition: form-data; name=\"file\"; filename=\"payload\"\r\nContent-Type: application/octet-stream\r\n\r\n";
    let footer = "\r\n--------------------------Boundary123456789--\r\n";
    assert_eq!(pinata_multipart_header(), header);
    assert_eq!(pinata_multipart_footer(), footer);
    assert_eq!(r.body, [header.as_bytes(), b"DATA", footer.as_bytes()].concat());
}

#[test]
fn pinata_responses() {
    assert_eq!(pinata_cid("{\"IpfsHash\":\"QmX\",\"PinSize\":3}").unwrap(), "QmX");
    assert_eq!(pinata_cid("{\"IpfsHash\":3}").unwrap_err(), "Response missing IpfsHash");
    assert_eq!(pinata_cid("{}").unwrap_err(), "Response missing IpfsHash");
    assert_eq!(pinata_cid("<html>").unwrap_err(), "Failed to parse JSON");
}
