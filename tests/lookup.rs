use png2wasm4src::lookup::write_parsed_module_with_indentation;
use png2wasm4src::{Flags, Module, ParsedModule, RustVariables};

fn s(text: &str) -> String {
    text.to_string()
}

fn sample_tree() -> Module {
    let five = Module::new(s("five"), vec![s("/five")], Vec::new());
    let four = Module::new(s("four"), vec![s("/four")], Vec::new());
    let three = Module::new(s("three"), vec![s("/three")], vec![four, five]);
    let two = Module::new(s("two"), vec![s("/two")], Vec::new());
    Module::new(s("one"), vec![s("/one")], vec![two, three])
}

#[test]
fn module_flatten() {
    let one = sample_tree();

    let flattened_module = one.flatten();

    let expected = Module::new(
        s("one"),
        vec![s("/one"), s("/two"), s("/three"), s("/four"), s("/five")],
        Vec::new(),
    );

    assert_eq!(flattened_module, expected);
}

#[test]
fn module_generate_cargo_build_instructions() {
    let one = sample_tree();

    let mut buffer = String::new();

    let result = one.generate_cargo_build_instructions(&mut buffer);
    assert!(result.is_ok());

    let expected = "cargo:rerun-if-changed=/one
cargo:rerun-if-changed=/three
cargo:rerun-if-changed=/five
cargo:rerun-if-changed=/four
cargo:rerun-if-changed=/two
";

    assert_eq!(buffer, expected);
}

#[test]
fn flatten_of_flat_module_is_unchanged() {
    let flat = Module::new(s("flat"), vec![s("b/x.png"), s("a/y.png")], Vec::new());
    let again = Module::new(s("flat"), vec![s("a/y.png"), s("b/x.png")], Vec::new());
    assert_eq!(flat.flatten(), again);
}

#[test]
fn flatten_twice_equals_flatten_once() {
    let once = sample_tree().flatten();
    let twice = sample_tree().flatten().flatten();
    assert_eq!(once, twice);
}

#[test]
fn flatten_merges_duplicate_paths() {
    let inner = Module::new(s("inner"), vec![s("/same"), s("/other")], Vec::new());
    let outer = Module::new(s("outer"), vec![s("/same")], vec![inner]);
    let expected = Module::new(s("outer"), vec![s("/other"), s("/same")], Vec::new());
    assert_eq!(outer.flatten(), expected);
}

#[test]
fn paths_order_by_component() {
    let module = Module::new(s("m"), vec![s("a-b"), s("a/b"), s("a")], Vec::new());
    assert_eq!(module.sprite_paths_depth_first(), vec![s("a"), s("a/b"), s("a-b")]);
}

#[test]
fn depth_first_paths() {
    let paths = sample_tree().sprite_paths_depth_first();
    assert_eq!(paths, vec![s("/one"), s("/three"), s("/five"), s("/four"), s("/two")]);
}

#[test]
fn new_removes_duplicates_and_keeps_first_submodule_of_a_name() {
    let first = Module::new(s("dup"), vec![s("/first")], Vec::new());
    let second = Module::new(s("dup"), vec![s("/second")], Vec::new());
    let module = Module::new(s("m"), vec![s("/p"), s("/p")], vec![first, second]);
    let expected = Module::new(
        s("m"),
        vec![s("/p")],
        vec![Module::new(s("dup"), vec![s("/first")], Vec::new())],
    );
    assert_eq!(module, expected);
}

#[test]
fn directory_entries_keep_png_files_only() {
    let module = Module::from_directory_entries(
        s("d"),
        vec![s("d/b.png"), s("d/c.PNG"), s("d/notes.txt"), s("d/noext"), s("d/a.png")],
        Vec::new(),
    );
    let expected = Module::new(s("d"), vec![s("d/a.png"), s("d/b.png")], Vec::new());
    assert_eq!(module, expected);
}

#[test]
fn directory_entries_prune_empty_branches() {
    let empty_leaf = Module::from_directory_entries(s("empty"), vec![s("r/empty/readme.md")], Vec::new());
    let deep_leaf = Module::from_directory_entries(s("leaf"), vec![s("r/deep/leaf/x.png")], Vec::new());
    let deep = Module::from_directory_entries(s("deep"), Vec::new(), vec![deep_leaf]);
    let hollow_inner = Module::from_directory_entries(s("inner"), Vec::new(), Vec::new());
    let hollow = Module::from_directory_entries(s("hollow"), Vec::new(), vec![hollow_inner]);
    assert!(!empty_leaf.has_sprites());
    assert!(!hollow.has_sprites());
    assert!(deep.has_sprites());
    let root = Module::from_directory_entries(s("r"), Vec::new(), vec![empty_leaf, deep, hollow]);
    let expected = Module::new(
        s("r"),
        Vec::new(),
        vec![Module::new(
            s("deep"),
            Vec::new(),
            vec![Module::new(s("leaf"), vec![s("r/deep/leaf/x.png")], Vec::new())],
        )],
    );
    assert_eq!(root, expected);
}

#[test]
fn parsed_module_orders_records_and_submodules() {
    let b = RustVariables::new(s("b"), 1, 1, Flags::OneBitPerPixel, vec![0x80]);
    let a = RustVariables::new(s("a"), 1, 1, Flags::OneBitPerPixel, vec![0x00]);
    let zed = ParsedModule::new(s("zed"), Vec::new(), Vec::new());
    let alpha = ParsedModule::new(s("alpha"), Vec::new(), Vec::new());
    let module = ParsedModule::new(s("m"), vec![b, a], vec![zed, alpha]);
    let expected = "pub mod m {
    pub const A_WIDTH: u32 = 1;
    pub const A_HEIGHT: u32 = 1;
    pub const A_FLAGS: u32 = 0; // BLIT_1BPP
    pub const A: [u8; 1] = [0x00];

    pub const B_WIDTH: u32 = 1;
    pub const B_HEIGHT: u32 = 1;
    pub const B_FLAGS: u32 = 0; // BLIT_1BPP
    pub const B: [u8; 1] = [0x80];

    pub mod alpha {
    }

    pub mod zed {
    }

}

";
    assert_eq!(module.to_string(), expected);
}

#[test]
fn parsed_module_at_nested_level() {
    let v = RustVariables::new(s("v"), 2, 3, Flags::TwoBitsPerPixel, vec![0xab, 0x01]);
    let module = ParsedModule::new(s("inner"), vec![v], Vec::new());
    let mut out = String::from("// head\n");
    write_parsed_module_with_indentation(&module, 1, &mut out);
    let expected = "// head
    pub mod inner {
        pub const V_WIDTH: u32 = 2;
        pub const V_HEIGHT: u32 = 3;
        pub const V_FLAGS: u32 = 1; // BLIT_2BPP
        pub const V: [u8; 2] = [0xab, 0x01];

    }

";
    assert_eq!(out, expected);
}
