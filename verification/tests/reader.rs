use rsprof::cli::{parse_duration_arg, validate_record_args, TopMetric};
use rsprof::dwarf::{
    build_address_ranges, build_function_table, decl_is_stdlib_path, insert_function_decl,
    root_from_decls, vaddr_to_file_offset, DwarfInfo, FunctionDecl, LineRow,
};
use rsprof::error::{ProfError, EXIT_DATABASE_ERROR, EXIT_GENERAL_ERROR, EXIT_INVALID_ARGUMENTS,
    EXIT_MISSING_DEBUG_INFO, EXIT_PERMISSION_DENIED, EXIT_PROCESS_NOT_FOUND};
use rsprof::filter::{find_user_frame, is_internal_file, is_internal_location, is_utility_function};
use rsprof::heap::HeapEventType;
use rsprof::list::{most_recent_profile, ProfileInfo};
use rsprof::maps::{parse_line, MemoryMaps};
use rsprof::process::{pick_process_match, sanitize_name, ProcessInfo};
use rsprof::resolver::{simplify_path, Location, SymbolResolver};
use rsprof::store::{aggregate_buckets_max, Storage};
use rsprof::strutil::{parse_dec_range, parse_hex_range, str_contains, str_find, u64_to_dec,
    u64_to_hex};
use rsprof::workload::{
    fill_payload, format_bytes, generate_trace_id, parse_headers, sanitize_for_log, slow_hash,
    BufferPool, CheckoutEngine, DataCache, DepthCpuLoad, DepthPool, InputValidator, Request,
    Route, SawtoothCpuLoad, SawtoothPool, SquareCpuLoad, SquarePool, StepCpuLoad,
};

#[test]
fn test_heap_event_type() {
    assert_eq!(HeapEventType::Alloc as u8, 0);
}

#[test]
fn string_helpers_are_exact() {
    assert_eq!(str_find("abcabc", "ca"), Some(2));
    assert_eq!(str_find("abc", "zz"), None);
    assert!(str_contains("core::ptr::read", "core::ptr::"));
    assert_eq!(u64_to_dec(0), "0");
    assert_eq!(u64_to_dec(90210), "90210");
    assert_eq!(u64_to_hex(0xdeadbeef), "deadbeef");
    assert_eq!(parse_hex_range("7f1200ab", 0, 8), Some(0x7f1200ab));
    assert_eq!(parse_hex_range("xyz", 0, 3), None);
    assert_eq!(parse_dec_range("00123", 0, 5), Some(123));
    assert_eq!(parse_dec_range("99999999999999999999999", 0, 23), None);
}

#[test]
fn maps_line_parses_and_aslr_uses_first_mapping() {
    let line = "55d9f2c00000-55d9f2c25000 r--p 00000000 103:02 9437304 /opt/app/target";
    let m = parse_line(line).expect("line should parse");
    assert_eq!(m.start, 0x55d9f2c00000);
    assert_eq!(m.end, 0x55d9f2c25000);
    assert_eq!(m.perms, "r--p");
    assert_eq!(m.offset, 0);
    assert_eq!(m.pathname.as_deref(), Some("/opt/app/target"));
    assert!(parse_line("not a mapping").is_none());

    let lines = vec![
        "55d9f2c00000-55d9f2c25000 r--p 00000000 103:02 9437304 /opt/app/target".to_string(),
        "55d9f2c25000-55d9f2d00000 r-xp 00025000 103:02 9437304 /opt/app/target".to_string(),
        "7f0000000000-7f0000001000 r-xp 00000000 103:02 111 /usr/lib/libc.so".to_string(),
    ];
    let maps = MemoryMaps::from_lines(&lines);
    assert_eq!(maps.mappings.len(), 3);
    // the first mapping decides, not the executable one
    assert_eq!(maps.aslr_offset("/opt/app/target"), 0x55d9f2c00000);
    assert!(maps.is_executable_addr(0x55d9f2c30000));
    assert!(!maps.is_executable_addr(0x55d9f2c10000));
    assert_eq!(maps.executable_mappings(), vec![1, 2]);
    assert!(maps.mappings[1].is_executable());
}

#[test]
fn address_ranges_follow_consecutive_rows() {
    let rows = vec![
        LineRow { addr: 0x100, file: "/p/src/a.rs".into(), line: 10, column: 1, end_sequence: false },
        LineRow { addr: 0x110, file: "/p/src/a.rs".into(), line: 11, column: 1, end_sequence: false },
        LineRow { addr: 0x120, file: String::new(), line: 0, column: 0, end_sequence: true },
        LineRow { addr: 0x050, file: "/p/src/b.rs".into(), line: 5, column: 2, end_sequence: false },
        LineRow { addr: 0x060, file: String::new(), line: 0, column: 0, end_sequence: true },
    ];
    let ranges = build_address_ranges(&rows);
    // three ranges: [0x100,0x110), [0x110,0x120), [0x050,0x060), sorted
    assert_eq!(ranges.len(), 3);
    assert_eq!((ranges[0].start, ranges[0].end, ranges[0].line), (0x050, 0x060, 5));
    assert_eq!((ranges[1].start, ranges[1].end, ranges[1].line), (0x100, 0x110, 10));
    assert_eq!((ranges[2].start, ranges[2].end, ranges[2].line), (0x110, 0x120, 11));
}

#[test]
fn demangling_feeds_the_function_table() {
    let syms = vec![(0x100u64, "_ZN3foo3barE".to_string()), (0x200u64, "plain".to_string())];
    let table = build_function_table(&syms);
    assert_eq!(table[0], (0x100, "foo::bar".to_string()));
    assert_eq!(table[1], (0x200, "plain".to_string()));
}

#[test]
fn function_decl_prefers_user_files() {
    let mut decls: Vec<FunctionDecl> = Vec::new();
    insert_function_decl(&mut decls, "my_app::hot", "/rustc/xyz/lib.rs", 1);
    insert_function_decl(&mut decls, "my_app::hot", "/proj/src/main.rs", 42);
    assert_eq!(decls.len(), 1);
    assert_eq!(decls[0].file, "/proj/src/main.rs");
    assert_eq!(decls[0].line, 42);
    // a later stdlib decl does not displace the user one
    insert_function_decl(&mut decls, "my_app::hot", "/rustc/other/lib.rs", 7);
    assert_eq!(decls[0].file, "/proj/src/main.rs");
    assert!(decl_is_stdlib_path("/rustc/xyz/lib.rs"));
    assert!(!decl_is_stdlib_path("/proj/src/main.rs"));
}

#[test]
fn vaddr_translation_uses_first_containing_segment() {
    let segs = vec![(0x1000u64, 0x1000u64, 0x0u64), (0x3000u64, 0x1000u64, 0x2000u64)];
    assert_eq!(vaddr_to_file_offset(&segs, 0x3010), 0x2010);
    assert_eq!(vaddr_to_file_offset(&segs, 0x1500), 0x500);
    assert_eq!(vaddr_to_file_offset(&segs, 0x9000), 0x9000);
}

fn small_resolver() -> SymbolResolver {
    let rows = vec![
        LineRow { addr: 0x1000, file: "/proj/src/main.rs".into(), line: 42, column: 3, end_sequence: false },
        LineRow { addr: 0x1010, file: "/proj/src/main.rs".into(), line: 43, column: 1, end_sequence: false },
        LineRow { addr: 0x1020, file: String::new(), line: 0, column: 0, end_sequence: true },
        LineRow { addr: 0x2000, file: "/rustc/abc/library/core/iter.rs".into(), line: 9, column: 1, end_sequence: false },
        LineRow { addr: 0x2010, file: String::new(), line: 0, column: 0, end_sequence: true },
    ];
    let syms = vec![
        (0x1000u64, "_ZN6my_app3hotE".to_string()),
        (0x2000u64, "_ZN6my_app4warmE".to_string()),
    ];
    let mut decls: Vec<FunctionDecl> = Vec::new();
    insert_function_decl(&mut decls, "my_app::warm", "/proj/src/warm.rs", 7);
    let dwarf = DwarfInfo::from_parts(&rows, &syms, decls);
    SymbolResolver::new(dwarf, 0x10000, Some("/proj".to_string()), Vec::new())
}

#[test]
fn resolve_finds_file_line_and_function() {
    let r = small_resolver();
    let loc = r.resolve(0x10000 + 0x1008);
    assert_eq!(loc.function, "my_app::hot");
    assert_eq!(loc.file, "src/main.rs");
    assert_eq!(loc.line, 42);
}

#[test]
fn symbol_round_trip_returns_the_function() {
    let r = small_resolver();
    // the address the symbol table gives for `hot` resolves back to `hot`
    let loc = r.resolve(0x10000 + 0x1000);
    assert_eq!(loc.function, "my_app::hot");
}

#[test]
fn stdlib_line_info_substituted_by_declaration() {
    let r = small_resolver();
    // warm's line info points into the standard library, but the function
    // is user code declared under the target root
    let loc = r.resolve(0x10000 + 0x2004);
    assert_eq!(loc.function, "my_app::warm");
    assert_eq!(loc.file, "src/warm.rs");
    assert_eq!(loc.line, 7);
}

#[test]
fn foreign_paths_fold_to_unknown() {
    let rows = vec![
        LineRow { addr: 0x100, file: "/elsewhere/src/dep.rs".into(), line: 3, column: 1, end_sequence: false },
        LineRow { addr: 0x110, file: String::new(), line: 0, column: 0, end_sequence: true },
    ];
    let syms = vec![(0x100u64, "dep::f".to_string())];
    let dwarf = DwarfInfo::from_parts(&rows, &syms, Vec::new());
    let r = SymbolResolver::new(dwarf, 0, Some("/proj".to_string()), Vec::new());
    let loc = r.resolve(0x105);
    assert_eq!(loc.function, "[unknown]");
    assert_eq!(loc.file, "[unknown]");
}

#[test]
fn resolve_cached_agrees_with_resolve() {
    let mut r = small_resolver();
    let a = r.resolve(0x10000 + 0x1008);
    let b = r.resolve_cached(0x10000 + 0x1008);
    let c = r.resolve_cached(0x10000 + 0x1008);
    assert_eq!(a.function, b.function);
    assert_eq!(b.file, c.file);
    assert_eq!(b.line, c.line);
    assert_eq!(r.range_count(), 3);
    assert_eq!(r.aslr_offset(), 0x10000);
}

#[test]
fn user_frame_skips_dependency_frames() {
    // a stack alternating dependency and target frames attributes to the
    // target frame
    let rows = vec![
        LineRow { addr: 0x100, file: "/home/u/.cargo/registry/src/dep-1.0/src/lib.rs".into(), line: 3, column: 1, end_sequence: false },
        LineRow { addr: 0x110, file: "/proj/src/main.rs".into(), line: 42, column: 1, end_sequence: false },
        LineRow { addr: 0x120, file: String::new(), line: 0, column: 0, end_sequence: true },
    ];
    let syms = vec![(0x100u64, "dep::work".to_string()), (0x110u64, "my_app::drive".to_string())];
    let dwarf = DwarfInfo::from_parts(&rows, &syms, Vec::new());
    let r = SymbolResolver::new(dwarf, 0, Some("/proj".to_string()), Vec::new());
    let stack = vec![0x104, 0x114, 0x104, 0x114];
    let loc = find_user_frame(&r, &stack);
    assert_eq!(loc.function, "my_app::drive");
    assert_eq!(loc.file, "src/main.rs");
}

#[test]
fn utility_frames_attribute_to_their_caller() {
    let rows = vec![
        LineRow { addr: 0x100, file: "/proj/src/utils.rs".into(), line: 3, column: 1, end_sequence: false },
        LineRow { addr: 0x110, file: "/proj/src/hot.rs".into(), line: 8, column: 1, end_sequence: false },
        LineRow { addr: 0x120, file: String::new(), line: 0, column: 0, end_sequence: true },
    ];
    let syms = vec![
        (0x100u64, "my_app::format_bytes".to_string()),
        (0x110u64, "my_app::caller_one".to_string()),
    ];
    let dwarf = DwarfInfo::from_parts(&rows, &syms, Vec::new());
    let r = SymbolResolver::new(dwarf, 0, Some("/proj".to_string()), Vec::new());
    let stack = vec![0x104, 0x114];
    let loc = find_user_frame(&r, &stack);
    assert_eq!(loc.function, "my_app::caller_one");
    assert!(is_utility_function("my_app::format_bytes"));
    assert!(!is_utility_function("my_app::caller_one"));
}

#[test]
fn internal_stacks_are_dropped() {
    let rows = vec![
        LineRow { addr: 0x100, file: "/rustc/abc/library/alloc/src/alloc.rs".into(), line: 3, column: 1, end_sequence: false },
        LineRow { addr: 0x110, file: String::new(), line: 0, column: 0, end_sequence: true },
    ];
    let syms = vec![(0x100u64, "alloc::alloc::alloc".to_string())];
    let dwarf = DwarfInfo::from_parts(&rows, &syms, Vec::new());
    let r = SymbolResolver::new(dwarf, 0, None, Vec::new());
    let loc = find_user_frame(&r, &vec![0x104]);
    assert!(is_internal_location(&loc));
    assert!(is_internal_file("[internal]"));
}

#[test]
fn simplify_path_strips_toolchain_prefixes() {
    assert_eq!(simplify_path("/home/u/proj/src/main.rs"), "src/main.rs");
    assert_eq!(
        simplify_path("/home/u/.cargo/registry/src/index-1/serde-1.0.0/src/de.rs"),
        "src/de.rs"
    );
    assert_eq!(simplify_path("plain.rs"), "plain.rs");
}

fn loc(file: &str, line: u32, function: &str) -> Location {
    Location { file: file.to_string(), line, column: 0, function: function.to_string() }
}

#[test]
fn checkpoint_holds_exactly_the_pending_rows() {
    let mut s = Storage::new();
    let a = loc("src/a.rs", 1, "a");
    let b = loc("src/b.rs", 2, "b");
    for _ in 0..3 {
        s.record_cpu_sample(0, &a);
    }
    for _ in 0..2 {
        s.record_cpu_sample(0, &b);
    }
    s.flush_checkpoint(1000);
    assert_eq!(s.checkpoint_count(), 1);
    // the checkpoint's row sum equals what was pending at flush time
    let total: u64 = s.checkpoints[0].cpu.iter().map(|(_, c)| *c).sum();
    assert_eq!(total, 5);
    assert_eq!(s.total_samples(), 5);
    assert_eq!(s.get_last_checkpoint_timestamp(), Some(1000));
    // nothing pending any more: a second flush adds nothing
    s.flush_checkpoint(2000);
    assert_eq!(s.checkpoint_count(), 1);
}

#[test]
fn locations_are_registered_once() {
    let mut s = Storage::new();
    let a = loc("src/a.rs", 1, "a");
    let id1 = s.record_cpu_sample(0, &a);
    let id2 = s.record_heap_sample(&a, 10, 0, 10, 1, 0);
    assert_eq!(id1, id2);
    assert_eq!(s.locations.len(), 1);
}

#[test]
fn heap_rows_merge_per_location() {
    let mut s = Storage::new();
    let a = loc("src/a.rs", 1, "a");
    s.record_heap_sample(&a, 100, 0, 100, 2, 0);
    s.record_heap_sample(&a, 50, 20, 30, 1, 1);
    s.flush_checkpoint(10);
    assert_eq!(s.checkpoints[0].heap.len(), 1);
    let row = &s.checkpoints[0].heap[0].1;
    assert_eq!(row.alloc_bytes, 150);
    assert_eq!(row.free_bytes, 20);
    assert_eq!(row.live_bytes, 130);
    assert_eq!(row.alloc_count, 3);
    assert_eq!(row.free_count, 1);
}

#[test]
fn top_cpu_orders_by_total() {
    let mut s = Storage::new();
    let a = loc("src/a.rs", 1, "a");
    let b = loc("src/b.rs", 2, "b");
    let c = loc("src/c.rs", 3, "c");
    for _ in 0..2 {
        s.record_cpu_sample(0, &a);
    }
    for _ in 0..9 {
        s.record_cpu_sample(0, &b);
    }
    for _ in 0..5 {
        s.record_cpu_sample(0, &c);
    }
    s.flush_checkpoint(1);
    let top = s.query_top_cpu(2);
    assert_eq!(top.len(), 2);
    assert_eq!(top[0].function, "b");
    assert_eq!(top[0].total_samples, 9);
    assert_eq!(top[1].function, "c");
    let all = s.query_top_cpu_live(10);
    assert_eq!(all.len(), 3);
    assert_eq!(all[2].function, "a");
    assert_eq!(all[0].instant_samples, 9);
}

#[test]
fn top_heap_orders_by_live_then_alloc() {
    let mut s = Storage::new();
    let a = loc("src/a.rs", 1, "a");
    let b = loc("src/b.rs", 2, "b");
    s.record_heap_sample(&a, 100, 0, 100, 1, 0);
    s.record_heap_sample(&b, 500, 450, 50, 5, 4);
    s.flush_checkpoint(1);
    let top = s.query_top_heap_live(10);
    assert_eq!(top.len(), 2);
    assert_eq!(top[0].function, "a");
    assert_eq!(top[0].live_bytes, 100);
    assert_eq!(top[1].total_alloc_bytes, 500);
}

#[test]
fn bucketed_aggregation_keeps_peaks() {
    // raw per-checkpoint shares, in order
    let shares = [5u64, 10, 80, 12, 7, 6, 9, 85, 4, 5];
    let points: Vec<(u64, u64)> = shares
        .iter()
        .enumerate()
        .map(|(i, v)| (i as u64 * 100, *v))
        .collect();
    let out = aggregate_buckets_max(&points, 0, 1000, 2);
    assert_eq!(out.len(), 2);
    assert_eq!(out[0].1, 80);
    assert_eq!(out[1].1, 85);
    assert!(out[0].0 < 1000 && out[1].0 < 1000);
    // exactly as many rows as buckets, zeros where nothing falls
    let sparse = aggregate_buckets_max(&points, 0, 4000, 4);
    assert_eq!(sparse.len(), 4);
    assert_eq!(sparse[0].1, 85);
    assert_eq!(sparse[1].1, 0);
    assert_eq!(sparse[2].1, 0);
    assert_eq!(sparse[3].1, 0);
    // degenerate windows produce no rows
    assert!(aggregate_buckets_max(&points, 10, 10, 4).is_empty());
    assert!(aggregate_buckets_max(&points, 0, 3, 4).is_empty());
}

#[test]
fn cpu_timeseries_reports_counts_and_totals() {
    let mut s = Storage::new();
    let a = loc("src/a.rs", 1, "a");
    let b = loc("src/b.rs", 2, "b");
    let ida = s.record_cpu_sample(0, &a);
    s.record_cpu_sample(0, &b);
    s.flush_checkpoint(100);
    s.record_cpu_sample(0, &a);
    s.record_cpu_sample(0, &a);
    s.flush_checkpoint(200);
    let series = s.query_cpu_timeseries(ida);
    assert_eq!(series, vec![(100, 1, 2), (200, 2, 2)]);
    let agg = s.query_cpu_timeseries_aggregated(ida, 0, 300, 3);
    assert_eq!(agg.len(), 3);
    assert_eq!(agg[1].1, 5000); // half the samples, in hundredths of a percent
    assert_eq!(agg[2].1, 10000);
}

#[test]
fn sparklines_zero_fill_missing_checkpoints() {
    let mut s = Storage::new();
    let a = loc("src/a.rs", 1, "a");
    let b = loc("src/b.rs", 2, "b");
    let ida = s.record_heap_sample(&a, 10, 0, 10, 1, 0);
    s.flush_checkpoint(100);
    let idb = s.record_heap_sample(&b, 30, 0, 30, 1, 0);
    s.flush_checkpoint(200);
    let rows = s.query_heap_sparklines_for_locations(5, &vec![ida, idb]);
    assert_eq!(rows.len(), 2);
    assert_eq!(rows[0], vec![10, 0]);
    assert_eq!(rows[1], vec![0, 30]);
}

#[test]
fn metadata_keys_replace() {
    let mut s = Storage::new();
    s.set_meta("pid", "10");
    s.set_meta("pid", "11");
    assert_eq!(s.get_meta("pid").as_deref(), Some("11"));
    assert!(s.get_meta("absent").is_none());
}

#[test]
fn exit_codes_follow_the_error_class() {
    assert_eq!(ProfError::ProcessNotFound("x".into()).exit_code(), EXIT_PROCESS_NOT_FOUND);
    assert_eq!(
        ProfError::MultipleProcesses("x".into(), "y".into()).exit_code(),
        EXIT_PROCESS_NOT_FOUND
    );
    assert_eq!(ProfError::PermissionDenied("x".into()).exit_code(), EXIT_PERMISSION_DENIED);
    assert_eq!(ProfError::MissingDebugInfo("x".into()).exit_code(), EXIT_MISSING_DEBUG_INFO);
    assert_eq!(ProfError::Database("x".into()).exit_code(), EXIT_DATABASE_ERROR);
    assert_eq!(ProfError::InvalidArgument("x".into()).exit_code(), EXIT_INVALID_ARGUMENTS);
    assert_eq!(ProfError::Io("x".into()).exit_code(), EXIT_GENERAL_ERROR);
    assert_eq!(ProfError::Sampler("x".into()).message(), "x");
}

#[test]
fn durations_parse_with_and_without_suffix() {
    assert_eq!(parse_duration_arg("30s"), Some(30_000));
    assert_eq!(parse_duration_arg("5m"), Some(300_000));
    assert_eq!(parse_duration_arg("90"), Some(90_000));
    assert_eq!(parse_duration_arg("bogus"), None);
    let _ = TopMetric::Cpu;
    assert!(validate_record_args(true, false, 99).is_ok());
    assert!(validate_record_args(false, false, 99).is_err());
    assert!(validate_record_args(true, false, 0).is_err());
    assert!(validate_record_args(true, false, 20000).is_err());
}

#[test]
fn process_identity_and_matching() {
    let p = ProcessInfo::from_parts(7, "tool".into(), "/bin/tool".into());
    assert_eq!(p.pid(), 7);
    assert_eq!(p.name(), "tool");
    assert_eq!(p.exe_path(), "/bin/tool");
    assert_eq!(sanitize_name("my tool!v2"), "my-tool-v2");
    match pick_process_match(&vec![(3, "x".into())], "x") {
        Ok(pid) => assert_eq!(pid, 3),
        Err(_) => panic!("a single match should resolve"),
    }
    assert!(pick_process_match(&vec![], "x").is_err());
    assert!(pick_process_match(&vec![(1, "a".into()), (2, "b".into())], "x").is_err());
}

fn profile(created: &str) -> ProfileInfo {
    ProfileInfo {
        path: format!("p-{created}.db"),
        process_name: "t".into(),
        pid: 1,
        duration_ms: 10,
        samples: 5,
        created: created.into(),
    }
}

#[test]
fn most_recent_profile_picks_latest_created() {
    let ps = vec![profile("2024-01-01"), profile("2025-03-01"), profile("2024-12-31")];
    assert_eq!(most_recent_profile(&ps), Some(1));
    assert_eq!(most_recent_profile(&Vec::new()), None);
}

#[test]
fn workload_utilities() {
    assert_eq!(format_bytes(512), "512B");
    assert_eq!(format_bytes(2048), "2.0KB");
    assert_eq!(format_bytes(1536), "1.5KB");
    assert_eq!(format_bytes(3 * 1048576 + 1048576 / 4), "3.25MB");
    assert_eq!(sanitize_for_log("a b!c_9"), "a.b.c_9");
    assert!(generate_trace_id(1).starts_with("trace_"));
    assert_eq!(generate_trace_id(5), generate_trace_id(5));
    let mut p = vec![0u8; 4];
    fill_payload(&mut p, 0);
    assert_eq!(p[0], 17);
    assert_eq!(p[1], 17u8.wrapping_mul(37).wrapping_add(17));
    let h1 = slow_hash(&vec![1, 2, 3]);
    let h2 = slow_hash(&vec![1, 2, 3]);
    assert_eq!(h1, h2);
    assert_ne!(h1, slow_hash(&vec![3, 2, 1]));
}

fn request(key: &str, payload_len: usize) -> Request {
    Request {
        id: 1,
        user_id: 2,
        session_id: 3,
        key: key.to_string(),
        payload: vec![7u8; payload_len],
        route: Route::Checkout,
        flags: 3,
    }
}

#[test]
fn validator_applies_the_length_rules() {
    let mut v = InputValidator::new();
    let r = request("rk_1", 96);
    let headers = parse_headers(&r.payload);
    assert_eq!(headers.len(), 3);
    assert_eq!(headers[1].1, "96");
    assert_eq!(headers[2].1, "3"); // 7 % 4
    assert!(v.validate(&r, &headers));
    let too_small = request("rk_1", 8);
    assert!(!v.validate(&too_small, &parse_headers(&too_small.payload)));
}

#[test]
fn checkout_produces_uncached_receipts() {
    let mut e = CheckoutEngine::new();
    let r = request("rk_1", 96);
    let resp = e.handle(&r, &Vec::new());
    assert_eq!(resp.status, 201);
    assert!(!resp.cacheable);
    assert!(!resp.body.is_empty());
}

#[test]
fn cache_hits_and_eviction() {
    let mut c = DataCache::new();
    assert!(c.get("missing").is_none());
    c.put("k1".into(), vec![1, 2, 3]);
    assert_eq!(c.get("k1"), Some(vec![1, 2, 3]));
    c.put("k1".into(), vec![9]);
    assert_eq!(c.get("k1"), Some(vec![9]));
}

#[test]
fn pools_follow_their_targets() {
    let mut bp = BufferPool::new();
    bp.tick(0);
    assert_eq!(bp.buffer_count(), 1);
    bp.tick(1000); // not due yet
    assert_eq!(bp.buffer_count(), 1);
    bp.tick(5000);
    assert_eq!(bp.buffer_count(), 2);
    assert_eq!(bp.total_bytes(), 2 * 10485760);

    let mut sp = SquarePool::new();
    sp.tick(0);
    assert_eq!(sp.buffers.len(), 5);
    sp.tick(3500);
    assert_eq!(sp.buffers.len(), 35);
    sp.tick(6100);
    assert_eq!(sp.buffers.len(), 6); // shrinks one per tick toward 5

    let mut st = SawtoothPool::new();
    st.tick(4000); // half the ramp: twenty megabytes in half-megabyte chunks
    assert_eq!(st.buffers.len(), 40);
    st.tick(0); // the ramp restarted: everything beyond the floor drains
    assert_eq!(st.buffers.len(), 1);

    let mut dp = DepthPool::new();
    dp.tick(0);
    assert_eq!(dp.depth_1_buffers.len(), 1);
    dp.tick(3000);
    assert_eq!(dp.depth_1_buffers.len(), 0);
    assert_eq!(dp.depth_2_buffers.len(), 1);
    dp.tick(6001);
    assert_eq!(dp.depth_3_buffers.len(), 1);
    dp.tick(9050);
    assert_eq!(dp.depth_4_buffers.len(), 1);
}

#[test]
fn cpu_loads_burn_deterministically() {
    let step = StepCpuLoad::new();
    assert_eq!(step.tick(0), step.tick(1000));
    let saw = SawtoothCpuLoad::new();
    assert_eq!(saw.tick(600), saw.tick(6600));
    let sq = SquareCpuLoad::new();
    assert_eq!(sq.tick(100), sq.tick(4100));
    let dp = DepthCpuLoad::new();
    // every depth performs the same burn
    assert_eq!(dp.tick(0), dp.tick(2500));
    assert_eq!(dp.tick(4500), dp.tick(6500));
}

#[test]
fn long_plain_durations_fall_back_to_seconds() {
    // fourteen digits: too long for the suffixed parser, taken as seconds
    assert_eq!(parse_duration_arg("12345678901234"), Some(12_345_678_901_234_000));
    // a suffixed token that long is rejected rather than parsed
    assert_eq!(parse_duration_arg("0000000000030s"), None);
    assert_eq!(parse_duration_arg(""), None);
}

#[test]
fn perf_attr_setters_touch_only_their_flag_bit() {
    let mut a = rsprof::perf::PerfEventAttr::new();
    assert_eq!(a.size, rsprof::perf::PERF_EVENT_ATTR_SIZE);
    assert_eq!(a.size, 120);
    assert_eq!(a.flags, 0);
    assert_eq!(a.config, 0);
    a.type_ = rsprof::perf::PERF_TYPE_SOFTWARE;
    a.config = rsprof::perf::PERF_COUNT_SW_CPU_CLOCK;
    a.sample_period_or_freq = 99;
    a.set_disabled(true);
    a.set_exclude_kernel(true);
    a.set_exclude_hv(true);
    a.set_freq(true);
    a.set_watermark(true);
    assert_eq!(
        a.flags,
        rsprof::perf::ATTR_DISABLED_BIT | rsprof::perf::ATTR_EXCLUDE_KERNEL_BIT
            | rsprof::perf::ATTR_EXCLUDE_HV_BIT | rsprof::perf::ATTR_FREQ_BIT
            | rsprof::perf::ATTR_WATERMARK_BIT
    );
    a.set_disabled(false);
    assert_eq!(
        a.flags,
        rsprof::perf::ATTR_EXCLUDE_KERNEL_BIT | rsprof::perf::ATTR_EXCLUDE_HV_BIT
            | rsprof::perf::ATTR_FREQ_BIT | rsprof::perf::ATTR_WATERMARK_BIT
    );
    // the non-flag fields rode through every setter
    assert_eq!(a.type_, rsprof::perf::PERF_TYPE_SOFTWARE);
    assert_eq!(a.config, rsprof::perf::PERF_COUNT_SW_CPU_CLOCK);
    assert_eq!(a.sample_period_or_freq, 99);
    assert_eq!(a.size, 120);
}

#[test]
fn target_root_comes_from_the_main_declaration() {
    let mut decls: Vec<FunctionDecl> = Vec::new();
    insert_function_decl(&mut decls, "helper", "/home/me/proj/src/util.rs", 3);
    insert_function_decl(&mut decls, "tool::main", "/home/me/proj/src/main.rs", 10);
    assert_eq!(root_from_decls(&decls), Some("/home/me/proj".to_string()));
    let mut none: Vec<FunctionDecl> = Vec::new();
    insert_function_decl(&mut none, "helper", "/home/me/proj/src/util.rs", 3);
    assert_eq!(root_from_decls(&none), None);
    // a main declared outside any source directory yields nothing
    let mut bare: Vec<FunctionDecl> = Vec::new();
    insert_function_decl(&mut bare, "main", "main.rs", 1);
    assert_eq!(root_from_decls(&bare), None);
}

#[test]
fn profiler_frames_and_files_are_internal() {
    assert!(rsprof::filter::matches_internal_function("rsprof_trace::ring::push"));
    assert!(rsprof::filter::matches_internal_function("rsprof_alloc::hook"));
    assert!(rsprof::filter::matches_internal_function("rsprof::commands::top::run"));
    assert!(is_internal_file("/home/me/rsprof-trace/src/lib.rs"));
    assert!(is_internal_file("/home/me/rsprof-alloc/src/lib.rs"));
    assert!(!rsprof::filter::matches_internal_function("myapp::run"));
    assert!(!is_internal_file("/home/me/proj/src/main.rs"));
}
