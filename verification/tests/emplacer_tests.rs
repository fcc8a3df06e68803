use wagi::emplacer::{
    first_error, invoice_cache_key, pending_placements, settle_placements, to_hex, Bits, CacheDisk,
    Emplacer, HandlerConfigurationSource,
};
use wagi::error::EmplacerError;
use wagi::invoice::{parse_invoice, Invoice, InvoiceId, Parcel, WagiHandlerInfo};
use sha2::{Digest, Sha256};

fn plain_parcel(name: &str, sha: &str) -> Parcel {
    Parcel {
        name: String::from(name),
        sha256: String::from(sha),
        media_type: String::from("text/plain"),
        member_of: Vec::new(),
        requires: Vec::new(),
        features: Vec::new(),
    }
}

fn handler_parcel(name: &str, sha: &str, requires: &[&str]) -> Parcel {
    Parcel {
        name: String::from(name),
        sha256: String::from(sha),
        media_type: String::from("application/wasm"),
        member_of: Vec::new(),
        requires: requires.iter().map(|g| String::from(*g)).collect(),
        features: vec![(
            String::from("wagi"),
            String::from("route"),
            String::from("/"),
        )],
    }
}

fn asset_parcel(name: &str, sha: &str, member_of: &[&str]) -> Parcel {
    Parcel {
        name: String::from(name),
        sha256: String::from(sha),
        media_type: String::from("text/css"),
        member_of: member_of.iter().map(|g| String::from(*g)).collect(),
        requires: Vec::new(),
        features: Vec::new(),
    }
}

fn reference_key(name: &str, version: &str) -> String {
    let digest = Sha256::digest(format!("{}/{}", name, version).as_bytes());
    let mut out = String::new();
    for b in digest.iter() {
        out.push_str(&format!("{:02x}", b));
    }
    out
}

#[test]
fn invoice_cache_key_matches_reference_digest() {
    let id = InvoiceId::new(String::from("itest"), String::from("1.0.0"));
    let key = invoice_cache_key(&id);
    assert_eq!(key, reference_key("itest", "1.0.0"));
    assert_eq!(key.len(), 64);
}

#[test]
fn hex_rendering_exact() {
    assert_eq!(to_hex(&vec![0xab, 0x01, 0xff]), "ab01ff");
    assert_eq!(to_hex(&Vec::new()), "");
}

#[test]
fn cache_layout_paths() {
    let id = InvoiceId::new(String::from("example"), String::from("0.1.0"));
    let key = invoice_cache_key(&id);
    let e = Emplacer::new(
        String::from("cache"),
        HandlerConfigurationSource::StandaloneBindle(String::from("mirror"), id.clone()),
    );
    assert_eq!(e.invoices_path(), "cache/_MANIFESTS");
    assert_eq!(e.asset_path(), "cache/_ASSETS");
    assert_eq!(e.invoice_path(&id), format!("cache/_MANIFESTS/{}", key));
    assert_eq!(e.asset_path_for(&id), format!("cache/_ASSETS/{}", key));
    let module = handler_parcel("mod.wasm", "abc123", &[]);
    assert_eq!(e.module_parcel_path(&module), "cache/abc123");
    let asset = asset_parcel("style.css", "def456", &["files"]);
    assert_eq!(
        e.asset_parcel_path(&id, &asset),
        format!("cache/_ASSETS/{}/style.css", key)
    );
    let mounts = e.asset_dir_volume_mount(&id);
    assert_eq!(mounts.len(), 1);
    assert_eq!(mounts[0].0, "/");
    assert_eq!(mounts[0].1, format!("cache/_ASSETS/{}", key));
}

#[test]
fn classify_finds_handlers_and_assets() {
    let id = InvoiceId::new(String::from("example"), String::from("0.1.0"));
    let inv = Invoice {
        id,
        parcels: vec![
            handler_parcel("mod.wasm", "abc123", &["files"]),
            asset_parcel("style.css", "def456", &["files"]),
            plain_parcel("readme.txt", "aaa111"),
            // module-typed but no route marker: not a handler
            Parcel {
                name: String::from("lib.wasm"),
                sha256: String::from("bbb222"),
                media_type: String::from("application/wasm"),
                member_of: Vec::new(),
                requires: Vec::new(),
                features: Vec::new(),
            },
        ],
    };
    let handlers = inv.classify();
    assert_eq!(handlers.len(), 1);
    assert_eq!(handlers[0].parcel.name, "mod.wasm");
    assert_eq!(handlers[0].invoice_id.name, "example");
    let assets = handlers[0].asset_parcels();
    assert_eq!(assets.len(), 1);
    assert_eq!(assets[0].name, "style.css");
}

fn one_handler_emplacer() -> (Emplacer, InvoiceId, Invoice) {
    let id = InvoiceId::new(String::from("example"), String::from("0.1.0"));
    let e = Emplacer::new(
        String::from("cache"),
        HandlerConfigurationSource::StandaloneBindle(String::from("mirror"), id.clone()),
    );
    let inv = Invoice {
        id: id.clone(),
        parcels: vec![
            handler_parcel("mod.wasm", "abc123", &["files"]),
            asset_parcel("style.css", "def456", &["files"]),
        ],
    };
    (e, id, inv)
}

#[test]
fn scenario_local_mirror_emplace() {
    let (e, id, inv) = one_handler_emplacer();
    let key = invoice_cache_key(&id);
    let mut disk = CacheDisk::new();
    // the run first materializes the invoice text, then fans out over blobs
    disk.write_file(e.invoice_path(&id), b"invoice-text".to_vec());
    let handlers = inv.classify();
    let plan = e.placements_for(&handlers);
    assert_eq!(plan.len(), 2);
    let pending = pending_placements(&plan, &disk);
    assert_eq!(pending.len(), 2);
    let outcomes = pending
        .iter()
        .map(|p| (p.clone(), Ok(format!("bytes-of-{}", p.parcel.name).into_bytes())))
        .collect();
    let result = settle_placements(&mut disk, outcomes);
    assert!(result.is_ok());
    assert!(disk.has_file(&String::from("cache/abc123")));
    assert!(disk.has_file(&format!("cache/_MANIFESTS/{}", key)));
    assert!(disk.has_file(&format!("cache/_ASSETS/{}/style.css", key)));
}

#[test]
fn scenario_second_run_fetches_nothing() {
    let (e, id, inv) = one_handler_emplacer();
    let mut disk = CacheDisk::new();
    disk.write_file(e.invoice_path(&id), b"invoice-text".to_vec());
    let handlers = inv.classify();
    let plan = e.placements_for(&handlers);
    let pending = pending_placements(&plan, &disk);
    let outcomes = pending
        .iter()
        .map(|p| (p.clone(), Ok(b"blob".to_vec())))
        .collect();
    settle_placements(&mut disk, outcomes).unwrap();
    // unchanged backend content, same plan: zero blobs left to fetch
    let plan_again = e.placements_for(&handlers);
    let pending_again = pending_placements(&plan_again, &disk);
    assert_eq!(pending_again.len(), 0);
}

#[test]
fn scenario_failed_asset_keeps_manifest_and_module() {
    let (e, id, inv) = one_handler_emplacer();
    let key = invoice_cache_key(&id);
    let mut disk = CacheDisk::new();
    disk.write_file(e.invoice_path(&id), b"invoice-text".to_vec());
    let handlers = inv.classify();
    let plan = e.placements_for(&handlers);
    let pending = pending_placements(&plan, &disk);
    assert_eq!(pending.len(), 2);
    let outcomes = pending
        .iter()
        .map(|p| {
            if p.parcel.name == "style.css" {
                (
                    p.clone(),
                    Err(EmplacerError::Backend(String::from("not found"))),
                )
            } else {
                (p.clone(), Ok(b"module".to_vec()))
            }
        })
        .collect();
    let result = settle_placements(&mut disk, outcomes);
    assert!(matches!(result, Err(EmplacerError::Backend(_))));
    // the failure neither rolled back the module nor the cached manifest
    assert!(disk.has_file(&format!("cache/_MANIFESTS/{}", key)));
    assert!(disk.has_file(&String::from("cache/abc123")));
    assert!(!disk.has_file(&format!("cache/_ASSETS/{}/style.css", key)));
}

#[test]
fn content_dedup_across_packages() {
    let id_a = InvoiceId::new(String::from("pkg-a"), String::from("1.0.0"));
    let id_b = InvoiceId::new(String::from("pkg-b"), String::from("2.0.0"));
    let e = Emplacer::new(
        String::from("cache"),
        HandlerConfigurationSource::StandaloneBindle(String::from("mirror"), id_a.clone()),
    );
    let module = handler_parcel("mod.wasm", "samedigest", &[]);
    let ha = WagiHandlerInfo {
        invoice_id: id_a,
        parcel: module.clone(),
        asset_parcels: Vec::new(),
    };
    let hb = WagiHandlerInfo {
        invoice_id: id_b,
        parcel: module,
        asset_parcels: Vec::new(),
    };
    // one file in the digest-keyed region serves both packages
    assert_eq!(
        e.module_parcel_path(&ha.parcel),
        e.module_parcel_path(&hb.parcel)
    );
    let mut disk = CacheDisk::new();
    let plan = e.placements_for(&vec![ha.clone(), hb.clone()]);
    let pending = pending_placements(&plan, &disk);
    let outcomes = pending
        .iter()
        .map(|p| (p.clone(), Ok(b"module-bytes".to_vec())))
        .collect();
    settle_placements(&mut disk, outcomes).unwrap();
    let bytes_a = disk
        .file_contents(&e.module_parcel_path(&ha.parcel))
        .unwrap()
        .clone();
    let bytes_b = disk
        .file_contents(&e.module_parcel_path(&hb.parcel))
        .unwrap()
        .clone();
    assert_eq!(bytes_a, bytes_b);
    let bits_a: Bits = e.bits_for(&ha, bytes_a);
    let bits_b: Bits = e.bits_for(&hb, bytes_b);
    assert_eq!(*bits_a.wasm_module, *bits_b.wasm_module);
}

#[test]
fn asset_isolation_across_packages() {
    let id_a = InvoiceId::new(String::from("pkg-a"), String::from("1.0.0"));
    let id_b = InvoiceId::new(String::from("pkg-b"), String::from("2.0.0"));
    let e = Emplacer::new(
        String::from("cache"),
        HandlerConfigurationSource::StandaloneBindle(String::from("mirror"), id_a.clone()),
    );
    let x = asset_parcel("x", "d1", &["files"]);
    let path_a = e.asset_parcel_path(&id_a, &x);
    let path_b = e.asset_parcel_path(&id_b, &x);
    assert_ne!(path_a, path_b);
    // a's file never sits under b's asset subdirectory
    let dir_b = format!("{}/", e.asset_path_for(&id_b));
    assert!(!path_a.starts_with(&dir_b));
    let dir_a = format!("{}/", e.asset_path_for(&id_a));
    assert!(path_a.starts_with(&dir_a));
}

#[test]
fn parse_invoice_reads_canonical_text() {
    let text = "bindleVersion = \"1.0.0\"\n\n\
[bindle]\n\
name = \"example\"\n\
version = \"0.1.0\"\n\n\
[[group]]\n\
name = \"files\"\n\n\
[[parcel]]\n\
[parcel.label]\n\
name = \"mod.wasm\"\n\
sha256 = \"abc123\"\n\
mediaType = \"application/wasm\"\n\
size = 4\n\
[parcel.label.feature.wagi]\n\
route = \"/\"\n\
[parcel.conditions]\n\
requires = [\"files\"]\n\n\
[[parcel]]\n\
[parcel.label]\n\
name = \"style.css\"\n\
sha256 = \"def456\"\n\
mediaType = \"text/css\"\n\
size = 4\n\
[parcel.conditions]\n\
memberOf = [\"files\"]\n";
    let inv = parse_invoice(&text.as_bytes().to_vec()).unwrap();
    assert_eq!(inv.id.name, "example");
    assert_eq!(inv.id.version, "0.1.0");
    assert_eq!(inv.parcels.len(), 2);
    assert_eq!(inv.parcels[0].name, "mod.wasm");
    assert_eq!(inv.parcels[0].sha256, "abc123");
    assert_eq!(inv.parcels[0].media_type, "application/wasm");
    assert_eq!(inv.parcels[0].requires, vec![String::from("files")]);
    assert!(inv.parcels[0].features.iter().any(|(s, k, v)| {
        s == "wagi" && k == "route" && v == "/"
    }));
    assert_eq!(inv.parcels[1].member_of, vec![String::from("files")]);
    let handlers = inv.classify();
    assert_eq!(handlers.len(), 1);
    assert_eq!(handlers[0].asset_parcels().len(), 1);
    assert_eq!(handlers[0].asset_parcels()[0].name, "style.css");
}

#[test]
fn parse_invoice_rejects_malformed_text() {
    let r = parse_invoice(&b"not an invoice at all [".to_vec());
    assert!(matches!(r, Err(EmplacerError::Invoice(_))));
}

#[test]
fn first_error_reports_first_failure_only() {
    let outcomes = vec![
        Ok(()),
        Err(EmplacerError::Backend(String::from("first"))),
        Err(EmplacerError::CacheWrite(String::from("second"))),
        Ok(()),
    ];
    let r = first_error(&outcomes);
    assert!(matches!(r, Err(EmplacerError::Backend(m)) if m == "first"));
    assert!(first_error(&vec![Ok(()), Ok(())]).is_ok());
    assert!(first_error(&Vec::new()).is_ok());
}

#[test]
fn direct_module_source_needs_no_emplacement() {
    let direct = Emplacer::new(
        String::from("cache"),
        HandlerConfigurationSource::ModuleConfigFile(String::from("modules.toml")),
    );
    assert!(!direct.needs_emplacement());
    let id = InvoiceId::new(String::from("example"), String::from("0.1.0"));
    let remote = Emplacer::new(
        String::from("cache"),
        HandlerConfigurationSource::RemoteBindle(String::from("http://bindle.example"), id),
    );
    assert!(remote.needs_emplacement());
}

#[test]
fn bits_carry_module_bytes_and_single_mount() {
    let id = InvoiceId::new(String::from("example"), String::from("0.1.0"));
    let key = invoice_cache_key(&id);
    let e = Emplacer::new(
        String::from("cache"),
        HandlerConfigurationSource::StandaloneBindle(String::from("mirror"), id.clone()),
    );
    let h = WagiHandlerInfo {
        invoice_id: id,
        parcel: handler_parcel("mod.wasm", "abc123", &[]),
        asset_parcels: Vec::new(),
    };
    let bits = e.bits_for(&h, b"wasm-bytes".to_vec());
    assert_eq!(&*bits.wasm_module, &b"wasm-bytes".to_vec());
    assert_eq!(bits.volume_mounts.len(), 1);
    assert_eq!(bits.volume_mounts[0].0, "/");
    assert_eq!(bits.volume_mounts[0].1, format!("cache/_ASSETS/{}", key));
}
