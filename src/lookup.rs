//! Module trees of sprites: built from a directory listing, flattened, turned
//! into trees of sprite records, and rendered as nested Rust modules.
use vstd::prelude::*;
use crate::order::{
    Keyed, collect_by_key, collected, has_key, insert_by_key, lemma_seq_lt_irreflexive, lemma_seq_lt_transitive,
    seq_lt, sorted_by_key,
};
use crate::error::PngToWasm4SrcError;
use crate::rust::{RustVariables, text_key};
use crate::sprite::{conversion_outcome, convert_png_to_rust_variables};

verus! {

/// Sort key of a path: compared character by character, with the separator
/// `/` before every other character, so that paths order component-wise.
pub open spec fn path_key(s: Seq<char>) -> Seq<i64> {
    s.map_values(|c: char| if c == '/' { -1i64 } else { c as u32 as i64 })
}

impl Keyed for String {
    open spec fn key(&self) -> Seq<i64> {
        path_key(self@)
    }

    fn sort_key(&self) -> (r: Vec<i64>) {
        let s = self.as_str();
        let n = s.unicode_len();
        let mut r: Vec<i64> = Vec::new();
        let mut i: usize = 0;
        while i < n
            invariant
                n == s@.len(),
                s@ == self@,
                i <= n,
                r@ == path_key(s@.subrange(0, i as int)),
            decreases n - i,
        {
            let c = s.get_char(i);
            let k: i64 = if c == '/' { -1 } else { c as u32 as i64 };
            r.push(k);
            assert(path_key(s@.subrange(0, i + 1)) =~= path_key(s@.subrange(0, i as int)).push(k));
            i = i + 1;
        }
        assert(s@.subrange(0, n as int) =~= s@);
        r
    }
}

pub proof fn lemma_path_key_injective(a: Seq<char>, b: Seq<char>)
    requires
        path_key(a) == path_key(b),
    ensures
        a == b,
{
    assert(a.len() == path_key(a).len());
    assert forall|i: int| 0 <= i < a.len() implies a[i] == b[i] by {
        assert(path_key(a)[i] == path_key(b)[i]);
        let ka = if a[i] == '/' { -1i64 } else { a[i] as u32 as i64 };
        let kb = if b[i] == '/' { -1i64 } else { b[i] as u32 as i64 };
        assert(path_key(a)[i] == ka);
        assert(path_key(b)[i] == kb);
        vstd::utf8::char_u32_cast(a[i], a[i] as u32);
        vstd::utf8::char_u32_cast(b[i], b[i] as u32);
        if a[i] != '/' && b[i] != '/' {
            assert(a[i] as u32 == b[i] as u32);
        }
    }
    assert(a =~= b);
}

/// A module of sprites: a name, the paths of its sprite files, and its
/// submodules.
#[derive(Debug, PartialEq, Eq)]
pub struct Module {
    name: String,
    sprite_paths: Vec<String>,
    submodules: Vec<Module>,
}

impl Keyed for Module {
    /// Submodules are ordered, and told apart, by name.
    open spec fn key(&self) -> Seq<i64> {
        text_key(self.spec_name())
    }

    fn sort_key(&self) -> (r: Vec<i64>) {
        name_key(&self.name)
    }
}

fn name_key(name: &String) -> (r: Vec<i64>)
    ensures
        r@ == text_key(name@),
{
    let s = name.as_str();
    let n = s.unicode_len();
    let mut r: Vec<i64> = Vec::new();
    let mut i: usize = 0;
    while i < n
        invariant
            n == s@.len(),
            s@ == name@,
            i <= n,
            r@ == text_key(s@.subrange(0, i as int)),
        decreases n - i,
    {
        let c = s.get_char(i);
        r.push(c as u32 as i64);
        assert(text_key(s@.subrange(0, i + 1)) =~= text_key(s@.subrange(0, i as int)).push(c as u32 as i64));
        i = i + 1;
    }
    assert(s@.subrange(0, n as int) =~= s@);
    r
}

/// The texts of a sequence of strings.
pub open spec fn views(s: Seq<String>) -> Seq<Seq<char>> {
    s.map_values(|p: String| p@)
}

/// The line that asks the build tool to rerun when `path` changes.
pub open spec fn rerun_line(path: Seq<char>) -> Seq<char> {
    "cargo:rerun-if-changed="@ + path + "\n"@
}

/// The rerun lines of `paths`, in order.
pub open spec fn rerun_lines(paths: Seq<Seq<char>>) -> Seq<char>
    decreases paths.len(),
{
    if paths.len() == 0 {
        seq![]
    } else {
        rerun_lines(paths.drop_last()) + rerun_line(paths.last())
    }
}

pub proof fn lemma_concat_to_set<A>(a: Seq<A>, b: Seq<A>)
    ensures
        (a + b).to_set() == a.to_set().union(b.to_set()),
{
    assert forall|x: A| (a + b).to_set().contains(x) <==> a.to_set().union(b.to_set()).contains(x) by {
        if (a + b).to_set().contains(x) {
            let i = choose|i: int| 0 <= i < (a + b).len() && (a + b)[i] == x;
            if i < a.len() {
                assert(a[i] == x);
            } else {
                assert(b[i - a.len()] == x);
            }
        }
        if a.to_set().contains(x) {
            let i = choose|i: int| 0 <= i < a.len() && a[i] == x;
            assert((a + b)[i] == x);
        }
        if b.to_set().contains(x) {
            let i = choose|i: int| 0 <= i < b.len() && b[i] == x;
            assert((a + b)[a.len() + i] == x);
        }
    }
    assert((a + b).to_set() =~= a.to_set().union(b.to_set()));
}

pub proof fn lemma_singleton_to_set<A>(v: A)
    ensures
        seq![v].to_set() == set![v],
{
    assert forall|x: A| seq![v].to_set().contains(x) <==> x == v by {
        if x == v {
            assert(seq![v][0] == v);
        }
    }
    assert(seq![v].to_set() =~= set![v]);
}

/// `r` is `m` flattened: it has the name of `m`, no submodules, and the
/// sprite paths of the whole tree of `m`, ordered and unique.
pub open spec fn flattened(m: Module, r: Module) -> bool {
    &&& r.spec_name() == m.spec_name()
    &&& r.spec_submodules().len() == 0
    &&& r.wf()
    &&& views(r.spec_paths()).to_set() == m.tree_paths().to_set()
}

/// Two sequences of paths, each ordered and unique, with the same paths are
/// the same sequence.
pub proof fn lemma_sorted_paths_unique(a: Seq<String>, b: Seq<String>)
    requires
        sorted_by_key(a),
        sorted_by_key(b),
        views(a).to_set() == views(b).to_set(),
    ensures
        views(a) == views(b),
    decreases a.len(),
{
    if a.len() == 0 {
        if b.len() > 0 {
            assert(views(b).to_set().contains(views(b)[0]));
        }
        assert(views(a) =~= views(b));
    } else {
        assert(views(a).to_set().contains(views(a)[0]));
        assert(b.len() > 0);
        assert(views(b).to_set().contains(views(b)[0]));
        let j = choose|j: int| 0 <= j < views(b).len() && views(b)[j] == views(a)[0];
        let i = choose|i: int| 0 <= i < views(a).len() && views(a)[i] == views(b)[0];
        assert(a[0]@ == b[j]@);
        assert(b[0]@ == a[i]@);
        if j > 0 {
            assert(seq_lt(b[0].key(), b[j].key()));
            if i > 0 {
                assert(seq_lt(a[0].key(), a[i].key()));
                lemma_seq_lt_transitive(b[0].key(), a[0].key(), b[0].key());
            }
            lemma_seq_lt_irreflexive(b[0].key());
        }
        assert(j == 0);
        let a1 = a.drop_first();
        let b1 = b.drop_first();
        assert(views(a1) =~= views(a).drop_first());
        assert(views(b1) =~= views(b).drop_first());
        assert forall|x: Seq<char>| views(a1).to_set().contains(x) <==> views(b1).to_set().contains(x) by {
            if views(a1).to_set().contains(x) {
                let k = choose|k: int| 0 <= k < views(a1).len() && views(a1)[k] == x;
                assert(views(a)[k + 1] == x);
                assert(views(b).to_set().contains(x));
                let l = choose|l: int| 0 <= l < views(b).len() && views(b)[l] == x;
                if l == 0 {
                    assert(a[k + 1]@ == a[0]@);
                    assert(a[k + 1].key() == a[0].key());
                    assert(seq_lt(a[0].key(), a[k + 1].key()));
                    lemma_seq_lt_irreflexive(a[0].key());
                }
                assert(views(b1)[l - 1] == x);
            }
            if views(b1).to_set().contains(x) {
                let k = choose|k: int| 0 <= k < views(b1).len() && views(b1)[k] == x;
                assert(views(b)[k + 1] == x);
                assert(views(a).to_set().contains(x));
                let l = choose|l: int| 0 <= l < views(a).len() && views(a)[l] == x;
                if l == 0 {
                    assert(b[k + 1]@ == b[0]@);
                    assert(b[k + 1].key() == b[0].key());
                    assert(seq_lt(b[0].key(), b[k + 1].key()));
                    lemma_seq_lt_irreflexive(b[0].key());
                }
                assert(views(a1)[l - 1] == x);
            }
        }
        assert(views(a1).to_set() =~= views(b1).to_set());
        lemma_sorted_paths_unique(a1, b1);
        assert(views(a) =~= seq![views(a)[0]] + views(a1));
        assert(views(b) =~= seq![views(b)[0]] + views(b1));
    }
}

/// Flattening a module that has no submodules gives it back: the same name,
/// the same sprite paths in the same order, and no submodules.
pub proof fn lemma_flatten_flat(m: Module, r: Module)
    requires
        m.wf(),
        m.spec_submodules().len() == 0,
        flattened(m, r),
    ensures
        r.spec_name() == m.spec_name(),
        views(r.spec_paths()) == views(m.spec_paths()),
        r.spec_submodules().len() == 0,
{
    assert(m.tree_paths() =~= views(m.spec_paths()));
    lemma_sorted_paths_unique(r.spec_paths(), m.spec_paths());
}

/// Flattening twice gives what flattening once gives.
pub proof fn lemma_flatten_idempotent(m: Module, r1: Module, r2: Module)
    requires
        flattened(m, r1),
        flattened(r1, r2),
    ensures
        r2.spec_name() == r1.spec_name(),
        views(r2.spec_paths()) == views(r1.spec_paths()),
        r2.spec_submodules().len() == 0,
{
    lemma_flatten_flat(r1, r2);
}

/// Inserts a path into an ordered, duplicate-free vector of paths.
fn insert_path(acc: &mut Vec<String>, p: String)
    requires
        sorted_by_key(old(acc)@),
    ensures
        sorted_by_key(final(acc)@),
        views(final(acc)@).to_set() == views(old(acc)@).to_set().insert(p@),
{
    let ghost pv = p@;
    let ghost before = acc@;
    insert_by_key(acc, p);
    proof {
        if has_key(before, path_key(pv)) {
            let i = choose|i: int| 0 <= i < before.len() && #[trigger] before[i].key() == path_key(pv);
            lemma_path_key_injective(before[i]@, pv);
            assert(views(before)[i] == pv);
            assert(views(acc@).to_set() =~= views(before).to_set().insert(pv));
        } else {
            let i = choose|i: int| 0 <= i <= before.len() && acc@ == before.insert(i, p);
            assert(views(acc@) =~= views(before).subrange(0, i) + seq![pv] + views(before).subrange(i, before.len() as int));
            assert(views(before) =~= views(before).subrange(0, i) + views(before).subrange(i, before.len() as int));
            lemma_concat_to_set(views(before).subrange(0, i), views(before).subrange(i, before.len() as int));
            lemma_concat_to_set(views(before).subrange(0, i) + seq![pv], views(before).subrange(i, before.len() as int));
            lemma_concat_to_set(views(before).subrange(0, i), seq![pv]);
            lemma_singleton_to_set(pv);
            assert(views(acc@).to_set() =~= views(before).to_set().insert(pv));
        }
    }
}

impl Module {
    pub closed spec fn spec_name(&self) -> Seq<char> {
        self.name@
    }

    pub closed spec fn spec_paths(&self) -> Seq<String> {
        self.sprite_paths@
    }

    pub closed spec fn spec_submodules(&self) -> Seq<Module> {
        self.submodules@
    }

    /// The module's own sprite paths are ordered and unique, and so are its
    /// submodules by name.
    pub open spec fn wf(&self) -> bool {
        sorted_by_key(self.spec_paths()) && sorted_by_key(self.spec_submodules())
    }

    /// All sprite paths of the tree, depth first: the module's own paths, then
    /// those of each submodule in turn.
    pub open spec fn tree_paths(&self) -> Seq<Seq<char>>
        decreases self, self.spec_submodules().len() + 1,
    {
        views(self.spec_paths()) + self.submodule_paths(self.spec_submodules().len() as int)
    }

    /// The sprite paths of the first `i` submodules' trees, in order.
    pub open spec fn submodule_paths(&self, i: int) -> Seq<Seq<char>>
        decreases self, i,
    {
        if i <= 0 || i > self.spec_submodules().len() {
            seq![]
        } else {
            self.submodule_paths(i - 1) + self.spec_submodules()[i - 1].tree_paths()
        }
    }

    /// Creates a module; its sprite paths and its submodules are kept ordered
    /// and unique (of submodules with one name, the first is kept).
    pub fn new(name: String, sprite_paths: Vec<String>, submodules: Vec<Module>) -> (r: Module)
        ensures
            r.spec_name() == name@,
            collected(sprite_paths@, r.spec_paths()),
            collected(submodules@, r.spec_submodules()),
            r.wf(),
    {
        Module { name, sprite_paths: collect_by_key(sprite_paths), submodules: collect_by_key(submodules) }
    }

    /// Appends the sprite paths of the tree, depth first, to `out`.
    fn push_tree_paths(&self, out: &mut Vec<String>)
        ensures
            views(final(out)@) == views(old(out)@) + self.tree_paths(),
        decreases self,
    {
        let ghost start = views(out@);
        let mut i: usize = 0;
        while i < self.sprite_paths.len()
            invariant
                i <= self.spec_paths().len(),
                views(out@) == start + views(self.spec_paths().subrange(0, i as int)),
            decreases self.sprite_paths.len() - i,
        {
            let ghost before = out@;
            let p = self.sprite_paths[i].clone();
            out.push(p);
            assert(views(out@) =~= views(before).push(p@));
            assert(views(self.spec_paths().subrange(0, i + 1)) =~= views(self.spec_paths().subrange(0, i as int)).push(self.spec_paths()[i as int]@));
            assert(views(out@) =~= start + views(self.spec_paths().subrange(0, i + 1)));
            i = i + 1;
        }
        assert(self.spec_paths().subrange(0, i as int) =~= self.spec_paths());
        let ghost mid = views(out@);
        let mut j: usize = 0;
        while j < self.submodules.len()
            invariant
                j <= self.spec_submodules().len(),
                views(out@) == mid + self.submodule_paths(j as int),
            decreases self.submodules.len() - j,
        {
            self.submodules[j].push_tree_paths(out);
            assert(views(out@) =~= mid + self.submodule_paths(j + 1));
            j = j + 1;
        }
        assert(views(out@) =~= start + self.tree_paths());
    }

    /// All sprite paths of the tree, depth first: the module's own paths in
    /// order, then those of each submodule in turn.
    pub fn sprite_paths_depth_first(&self) -> (r: Vec<String>)
        ensures
            views(r@) == self.tree_paths(),
    {
        let mut r: Vec<String> = Vec::new();
        self.push_tree_paths(&mut r);
        assert(views(r@) =~= self.tree_paths());
        r
    }

    /// Writes one `cargo:rerun-if-changed=<path>` line for each sprite path of
    /// the tree, depth first, so that a build script reruns when a sprite
    /// changes.
    pub fn generate_cargo_build_instructions(&self, output: &mut String) -> (r: Result<(), std::fmt::Error>)
        ensures
            r is Ok,
            final(output)@ == old(output)@ + rerun_lines(self.tree_paths()),
    {
        let paths = self.sprite_paths_depth_first();
        let ghost start = output@;
        let mut i: usize = 0;
        while i < paths.len()
            invariant
                i <= paths@.len(),
                views(paths@) == self.tree_paths(),
                output@ == start + rerun_lines(views(paths@).subrange(0, i as int)),
            decreases paths.len() - i,
        {
            output.append("cargo:rerun-if-changed=");
            output.append(paths[i].as_str());
            output.append("\n");
            let ghost next = views(paths@).subrange(0, i + 1);
            assert(next.drop_last() =~= views(paths@).subrange(0, i as int));
            assert(output@ =~= start + rerun_lines(next));
            i = i + 1;
        }
        assert(views(paths@).subrange(0, i as int) =~= views(paths@));
        Ok(())
    }
}

impl Module {
    /// Inserts every sprite path of the tree into `acc`.
    fn add_tree_paths(&self, acc: &mut Vec<String>)
        requires
            sorted_by_key(old(acc)@),
        ensures
            sorted_by_key(final(acc)@),
            views(final(acc)@).to_set() == views(old(acc)@).to_set().union(self.tree_paths().to_set()),
        decreases self,
    {
        let ghost start = views(acc@).to_set();
        let mut i: usize = 0;
        while i < self.sprite_paths.len()
            invariant
                i <= self.spec_paths().len(),
                sorted_by_key(acc@),
                views(acc@).to_set() == start.union(views(self.spec_paths().subrange(0, i as int)).to_set()),
            decreases self.sprite_paths.len() - i,
        {
            let p = self.sprite_paths[i].clone();
            insert_path(acc, p);
            proof {
                let prev = views(self.spec_paths().subrange(0, i as int));
                assert(views(self.spec_paths().subrange(0, i + 1)) =~= prev + seq![p@]);
                lemma_concat_to_set(prev, seq![p@]);
                lemma_singleton_to_set(p@);
                assert(views(acc@).to_set() =~= start.union(views(self.spec_paths().subrange(0, i + 1)).to_set()));
            }
            i = i + 1;
        }
        assert(self.spec_paths().subrange(0, i as int) =~= self.spec_paths());
        let ghost mid = views(acc@).to_set();
        let mut j: usize = 0;
        while j < self.submodules.len()
            invariant
                j <= self.spec_submodules().len(),
                sorted_by_key(acc@),
                views(acc@).to_set() == mid.union(self.submodule_paths(j as int).to_set()),
            decreases self.submodules.len() - j,
        {
            self.submodules[j].add_tree_paths(acc);
            proof {
                lemma_concat_to_set(self.submodule_paths(j as int), self.spec_submodules()[j as int].tree_paths());
                assert(views(acc@).to_set() =~= mid.union(self.submodule_paths(j + 1).to_set()));
            }
            j = j + 1;
        }
        proof {
            lemma_concat_to_set(views(self.spec_paths()), self.submodule_paths(self.spec_submodules().len() as int));
            assert(views(acc@).to_set() =~= start.union(self.tree_paths().to_set()));
        }
    }

    /// Flattens the module: every sprite path of the tree goes to the
    /// top-level module, ordered and unique, and no submodule is left.
    pub fn flatten(self) -> (r: Module)
        ensures
            flattened(self, r),
    {
        let mut sprite_paths: Vec<String> = Vec::new();
        self.add_tree_paths(&mut sprite_paths);
        assert(views(Seq::<String>::empty()).to_set() =~= Set::<Seq<char>>::empty());
        assert(views(sprite_paths@).to_set() =~= self.tree_paths().to_set());
        Module { name: self.name, sprite_paths, submodules: Vec::new() }
    }
}

/// The extension of the file name of `path`, as path parsing finds it.
pub uninterp spec fn path_extension(path: Seq<char>) -> Option<Seq<char>>;

pub open spec fn text_option(r: Option<String>) -> Option<Seq<char>> {
    match r {
        Some(s) => Some(s@),
        None => None,
    }
}

/// Relies on `std::path::Path::extension`: the part of the file name after
/// its last dot, if any.
#[verifier::external_body]
fn extension(path: &str) -> (r: Option<String>)
    ensures
        text_option(r) == path_extension(path@),
{
    std::path::Path::new(path).extension().map(|e| e.to_string_lossy().into_owned())
}

/// A sprite file is a file whose extension is exactly `png`.
pub open spec fn is_sprite_file(path: Seq<char>) -> bool {
    path_extension(path) == Some("png"@)
}

/// The paths of `s` that name sprite files, in order.
pub open spec fn sprite_files(s: Seq<String>) -> Seq<String>
    decreases s.len(),
{
    if s.len() == 0 {
        s
    } else if is_sprite_file(s.last()@) {
        sprite_files(s.drop_last()).push(s.last())
    } else {
        sprite_files(s.drop_last())
    }
}

/// The modules of `s` that hold a sprite somewhere in their tree, in order.
pub open spec fn modules_with_sprites(s: Seq<Module>) -> Seq<Module>
    decreases s.len(),
{
    if s.len() == 0 {
        s
    } else if s.last().tree_paths().len() > 0 {
        modules_with_sprites(s.drop_last()).push(s.last())
    } else {
        modules_with_sprites(s.drop_last())
    }
}

proof fn lemma_modules_with_sprites(s: Seq<Module>)
    ensures
        forall|i: int| 0 <= i < modules_with_sprites(s).len() ==> (#[trigger] modules_with_sprites(s)[i]).tree_paths().len() > 0,
    decreases s.len(),
{
    if s.len() > 0 {
        lemma_modules_with_sprites(s.drop_last());
        let prev = modules_with_sprites(s.drop_last());
        assert forall|i: int| 0 <= i < modules_with_sprites(s).len() implies (#[trigger] modules_with_sprites(s)[i]).tree_paths().len() > 0 by {
            if s.last().tree_paths().len() > 0 && i == prev.len() {
            } else {
                assert(modules_with_sprites(s)[i] == prev[i]);
            }
        }
    }
}

fn is_sprite_path(path: &String) -> (r: bool)
    ensures
        r == is_sprite_file(path@),
{
    let png = "png".to_owned();
    match extension(path.as_str()) {
        Some(e) => e == png,
        None => false,
    }
}

impl Module {
    /// Tells whether the tree holds a sprite anywhere.
    pub fn has_sprites(&self) -> (r: bool)
        ensures
            r == (self.tree_paths().len() > 0),
    {
        let paths = self.sprite_paths_depth_first();
        assert(views(paths@).len() == paths@.len());
        paths.len() > 0
    }

    /// Makes the module of a directory named `name` from its files and the
    /// modules of its subdirectories: files whose extension is `png` become
    /// its sprite paths, and subdirectories without any sprite in their tree
    /// are left out.
    pub fn from_directory_entries(name: String, files: Vec<String>, subdirectories: Vec<Module>) -> (r: Module)
        ensures
            r.spec_name() == name@,
            collected(sprite_files(files@), r.spec_paths()),
            collected(modules_with_sprites(subdirectories@), r.spec_submodules()),
            r.wf(),
            forall|j: int| 0 <= j < r.spec_submodules().len() ==> (#[trigger] r.spec_submodules()[j]).tree_paths().len() > 0,
    {
        let ghost all_files = files@;
        let mut rest = files;
        let mut kept: Vec<String> = Vec::new();
        let ghost mut k: int = 0;
        while rest.len() > 0
            invariant
                0 <= k <= all_files.len(),
                rest@ == all_files.subrange(k, all_files.len() as int),
                kept@ == sprite_files(all_files.subrange(0, k)),
            decreases rest.len(),
        {
            let f = rest.remove(0);
            let ghost next = all_files.subrange(0, k + 1);
            assert(next.drop_last() =~= all_files.subrange(0, k));
            if is_sprite_path(&f) {
                kept.push(f);
            }
            proof {
                k = k + 1;
            }
        }
        assert(all_files.subrange(0, k) =~= all_files);
        let ghost all_subs = subdirectories@;
        let mut rest_subs = subdirectories;
        let mut kept_subs: Vec<Module> = Vec::new();
        let ghost mut l: int = 0;
        while rest_subs.len() > 0
            invariant
                0 <= l <= all_subs.len(),
                rest_subs@ == all_subs.subrange(l, all_subs.len() as int),
                kept_subs@ == modules_with_sprites(all_subs.subrange(0, l)),
            decreases rest_subs.len(),
        {
            let m = rest_subs.remove(0);
            let ghost next = all_subs.subrange(0, l + 1);
            assert(next.drop_last() =~= all_subs.subrange(0, l));
            if m.has_sprites() {
                kept_subs.push(m);
            }
            proof {
                l = l + 1;
            }
        }
        assert(all_subs.subrange(0, l) =~= all_subs);
        let r = Module::new(name, kept, kept_subs);
        proof {
            lemma_modules_with_sprites(all_subs);
            assert forall|j: int| 0 <= j < r.spec_submodules().len() implies (#[trigger] r.spec_submodules()[j]).tree_paths().len() > 0 by {
                let i = choose|i: int| crate::order::first_of_key(modules_with_sprites(all_subs), i) && r.spec_submodules()[j] == modules_with_sprites(all_subs)[i];
            }
        }
        r
    }
}

/// A module of sprite records: a name, its records and its submodules.
#[derive(Debug, PartialEq, Eq)]
pub struct ParsedModule {
    name: String,
    variables: Vec<RustVariables>,
    submodules: Vec<ParsedModule>,
}

impl Keyed for ParsedModule {
    /// Submodules are ordered, and told apart, by name.
    open spec fn key(&self) -> Seq<i64> {
        text_key(self.spec_name())
    }

    fn sort_key(&self) -> (r: Vec<i64>) {
        name_key(&self.name)
    }
}

/// Four spaces for each level of nesting.
pub open spec fn indentation(level: nat) -> Seq<char>
    decreases level,
{
    if level == 0 {
        seq![]
    } else {
        indentation((level - 1) as nat) + "    "@
    }
}

/// The declarations of each record, lines starting with `prefix`, each
/// record followed by a blank line.
pub open spec fn records_text(vs: Seq<RustVariables>, prefix: Seq<char>) -> Seq<char>
    decreases vs.len(),
{
    if vs.len() == 0 {
        seq![]
    } else {
        records_text(vs.drop_last(), prefix) + vs.last().text(prefix, false) + "\n"@
    }
}

impl ParsedModule {
    pub closed spec fn spec_name(&self) -> Seq<char> {
        self.name@
    }

    pub closed spec fn spec_variables(&self) -> Seq<RustVariables> {
        self.variables@
    }

    pub closed spec fn spec_submodules(&self) -> Seq<ParsedModule> {
        self.submodules@
    }

    /// The module as Rust source, its opening line indented by `indent`: the
    /// records' declarations one level deeper and made public, then the
    /// submodules one level deeper, then the closing brace and a blank line.
    pub open spec fn text(&self, indent: Seq<char>) -> Seq<char>
        decreases self, self.spec_submodules().len() + 1,
    {
        indent + "pub mod "@ + self.spec_name() + " {\n"@
            + records_text(self.spec_variables(), indent + "    "@ + "pub "@)
            + self.submodules_text(indent + "    "@, self.spec_submodules().len() as int)
            + indent + "}\n\n"@
    }

    /// The text of the first `i` submodules, opening lines indented by `indent`.
    pub open spec fn submodules_text(&self, indent: Seq<char>, i: int) -> Seq<char>
        decreases self, i,
    {
        if i <= 0 || i > self.spec_submodules().len() {
            seq![]
        } else {
            self.submodules_text(indent, i - 1) + self.spec_submodules()[i - 1].text(indent)
        }
    }

    /// Creates a module; its records and its submodules are kept ordered and
    /// unique (of submodules with one name, the first is kept).
    pub fn new(name: String, variables: Vec<RustVariables>, submodules: Vec<ParsedModule>) -> (r: ParsedModule)
        ensures
            r.spec_name() == name@,
            collected(variables@, r.spec_variables()),
            collected(submodules@, r.spec_submodules()),
    {
        ParsedModule { name, variables: collect_by_key(variables), submodules: collect_by_key(submodules) }
    }

    /// The module as Rust source, at the top level.
    pub fn to_string(&self) -> (r: String)
        ensures
            r@ == self.text(seq![]),
    {
        let mut out = String::new();
        write_parsed_module_with_indentation(self, 0, &mut out);
        out
    }
}

fn write_module(module: &ParsedModule, indent: &str, out: &mut String)
    ensures
        final(out)@ == old(out)@ + module.text(indent@),
    decreases module,
{
    let ghost start = out@;
    let mut inner = indent.to_owned();
    inner.append("    ");
    let mut prefix = inner.clone();
    prefix.append("pub ");
    out.append(indent);
    out.append("pub mod ");
    out.append(module.name.as_str());
    out.append(" {\n");
    let ghost head = out@;
    let mut i: usize = 0;
    while i < module.variables.len()
        invariant
            i <= module.spec_variables().len(),
            prefix@ == indent@ + "    "@ + "pub "@,
            out@ == head + records_text(module.spec_variables().subrange(0, i as int), prefix@),
        decreases module.variables.len() - i,
    {
        module.variables[i].write_declarations(out, prefix.as_str(), false);
        out.append("\n");
        let ghost next = module.spec_variables().subrange(0, i + 1);
        assert(next.drop_last() =~= module.spec_variables().subrange(0, i as int));
        assert(out@ =~= head + records_text(next, prefix@));
        i = i + 1;
    }
    assert(module.spec_variables().subrange(0, i as int) =~= module.spec_variables());
    let ghost mid = out@;
    let mut j: usize = 0;
    while j < module.submodules.len()
        invariant
            j <= module.spec_submodules().len(),
            inner@ == indent@ + "    "@,
            out@ == mid + module.submodules_text(inner@, j as int),
        decreases module.submodules.len() - j,
    {
        write_module(&module.submodules[j], inner.as_str(), out);
        assert(out@ =~= mid + module.submodules_text(inner@, j + 1));
        j = j + 1;
    }
    out.append(indent);
    out.append("}\n\n");
    assert(out@ =~= start + module.text(indent@));
}

/// Writes `module` as Rust source to `output`, nested `level` levels deep.
pub fn write_parsed_module_with_indentation(module: &ParsedModule, level: usize, output: &mut String)
    ensures
        final(output)@ == old(output)@ + module.text(indentation(level as nat)),
{
    let mut indent = String::new();
    let mut i: usize = 0;
    while i < level
        invariant
            i <= level,
            indent@ == indentation(i as nat),
        decreases level - i,
    {
        indent.append("    ");
        i = i + 1;
    }
    write_module(module, indent.as_str(), output);
}

/// The file stem of `path` (its file name without the extension), as path
/// parsing finds it.
pub uninterp spec fn path_file_stem(path: Seq<char>) -> Option<Seq<char>>;

/// Relies on `std::path::Path::file_stem`: the file name of the path without
/// its last extension, if the path has a file name.
#[verifier::external_body]
fn file_stem(path: &str) -> (r: Option<String>)
    ensures
        text_option(r) == path_file_stem(path@),
{
    std::path::Path::new(path).file_stem().map(|s| s.to_string_lossy().into_owned())
}

/// The outcome of converting the sprite file at `path` whose content is
/// `bytes`: the sprite is named after the file stem.
pub open spec fn sprite_outcome(path: Seq<char>, bytes: Seq<u8>, r: Result<RustVariables, PngToWasm4SrcError>) -> bool {
    match path_file_stem(path) {
        None => r matches Err(PngToWasm4SrcError::FileWithoutStem),
        Some(stem) => conversion_outcome(stem, bytes, r),
    }
}

/// The sprite file at `path` whose content is `bytes` converts successfully.
pub open spec fn converts(path: Seq<char>, bytes: Seq<u8>) -> bool {
    exists|v: RustVariables| sprite_outcome(path, bytes, Ok(v))
}

/// Converts the sprite file at `path` whose content is `bytes`.
pub fn convert_sprite_file(path: &String, bytes: &Vec<u8>) -> (r: Result<RustVariables, PngToWasm4SrcError>)
    ensures
        sprite_outcome(path@, bytes@, r),
{
    match file_stem(path.as_str()) {
        None => Err(PngToWasm4SrcError::FileWithoutStem),
        Some(stem) => convert_png_to_rust_variables(stem.as_str(), bytes.as_slice()),
    }
}

/// Converts the sprite files at `paths`, whose contents are `sources`, in
/// order; the first failure stops the conversion and is returned.
pub fn convert_sprite_files(paths: &Vec<String>, sources: &Vec<Vec<u8>>) -> (r: Result<Vec<RustVariables>, PngToWasm4SrcError>)
    requires
        paths@.len() == sources@.len(),
    ensures
        r matches Ok(vs) ==> vs@.len() == paths@.len() && forall|i: int|
            0 <= i < paths@.len() ==> sprite_outcome(paths@[i]@, sources@[i]@, Ok(#[trigger] vs@[i])),
        r matches Err(e) ==> exists|i: int|
            0 <= i < paths@.len() && sprite_outcome(paths@[i]@, sources@[i]@, Err(e)) && forall|j: int|
                0 <= j < i ==> converts(#[trigger] paths@[j]@, sources@[j]@),
{
    let mut vs: Vec<RustVariables> = Vec::new();
    let mut i: usize = 0;
    while i < paths.len()
        invariant
            paths@.len() == sources@.len(),
            i <= paths@.len(),
            vs@.len() == i,
            forall|j: int| 0 <= j < i ==> sprite_outcome(paths@[j]@, sources@[j]@, Ok(#[trigger] vs@[j])),
        decreases paths.len() - i,
    {
        let res = convert_sprite_file(&paths[i], &sources[i]);
        match res {
            Ok(v) => {
                vs.push(v);
            },
            Err(e) => {
                assert forall|j: int| 0 <= j < i implies converts(#[trigger] paths@[j]@, sources@[j]@) by {
                    assert(sprite_outcome(paths@[j]@, sources@[j]@, Ok(vs@[j])));
                }
                assert(sprite_outcome(paths@[i as int]@, sources@[i as int]@, Err(e)));
                return Err(e);
            },
        }
        i = i + 1;
    }
    Ok(vs)
}

/// `pm` is the module `m` with the records `recs` in place of its sprite
/// paths, taken depth first: it has the name of `m`, the records of its own
/// paths, and one module made in the same way from each submodule.
pub open spec fn parsed_from(m: Module, recs: Seq<RustVariables>, pm: ParsedModule) -> bool
    decreases m,
{
    let own: int = m.spec_paths().len() as int;
    &&& recs.len() == m.tree_paths().len()
    &&& pm.spec_name() == m.spec_name()
    &&& collected(recs.subrange(0, own), pm.spec_variables())
    &&& exists|ps: Seq<ParsedModule>|
        {
            &&& ps.len() == m.spec_submodules().len()
            &&& collected(ps, pm.spec_submodules())
            &&& forall|j: int|
                0 <= j < ps.len() ==> parsed_from(
                    m.spec_submodules()[j],
                    recs.subrange(own + m.submodule_paths(j).len(), own + m.submodule_paths(j + 1).len()),
                    #[trigger] ps[j],
                )
        }
}

proof fn lemma_submodule_paths_grow(m: Module, a: int, b: int)
    requires
        0 <= a <= b <= m.spec_submodules().len(),
    ensures
        m.submodule_paths(a).len() <= m.submodule_paths(b).len(),
    decreases b - a,
{
    if a < b {
        lemma_submodule_paths_grow(m, a, b - 1);
    }
}

/// `pm` is the module `m` with each sprite path, depth first, replaced by the
/// record that converting the matching source gives.
pub open spec fn parsed_with(m: Module, sources: Seq<Vec<u8>>, pm: ParsedModule) -> bool {
    exists|recs: Seq<RustVariables>|
        #![trigger parsed_from(m, recs, pm)]
        {
            &&& recs.len() == sources.len()
            &&& forall|i: int| 0 <= i < recs.len() ==> sprite_outcome(m.tree_paths()[i], sources[i]@, Ok(#[trigger] recs[i]))
            &&& parsed_from(m, recs, pm)
        }
}

/// Builds the parsed module of `m` from the records of its sprite paths,
/// taking them depth first from the front of `records`.
fn assemble(m: &Module, records: &mut Vec<RustVariables>) -> (pm: ParsedModule)
    requires
        old(records)@.len() >= m.tree_paths().len(),
    ensures
        final(records)@ == old(records)@.subrange(m.tree_paths().len() as int, old(records)@.len() as int),
        parsed_from(*m, old(records)@.subrange(0, m.tree_paths().len() as int), pm),
    decreases m,
{
    let ghost all = records@;
    let ghost own: int = m.spec_paths().len() as int;
    let mut variables: Vec<RustVariables> = Vec::new();
    let mut i: usize = 0;
    while i < m.sprite_paths.len()
        invariant
            own == m.spec_paths().len(),
            all.len() >= m.tree_paths().len(),
            m.tree_paths().len() == own + m.submodule_paths(m.spec_submodules().len() as int).len(),
            i <= own,
            variables@ == all.subrange(0, i as int),
            records@ == all.subrange(i as int, all.len() as int),
        decreases m.sprite_paths.len() - i,
    {
        let v = records.remove(0);
        variables.push(v);
        assert(variables@ =~= all.subrange(0, i + 1));
        assert(records@ =~= all.subrange(i + 1, all.len() as int));
        i = i + 1;
    }
    let mut submodules: Vec<ParsedModule> = Vec::new();
    let mut j: usize = 0;
    while j < m.submodules.len()
        invariant
            own == m.spec_paths().len(),
            all.len() >= m.tree_paths().len(),
            m.tree_paths().len() == own + m.submodule_paths(m.spec_submodules().len() as int).len(),
            j <= m.spec_submodules().len(),
            variables@ == all.subrange(0, own as int),
            submodules@.len() == j,
            records@ == all.subrange(own + m.submodule_paths(j as int).len(), all.len() as int),
            forall|k: int| 0 <= k < j ==> parsed_from(
                m.spec_submodules()[k],
                all.subrange(own + m.submodule_paths(k).len(), own + m.submodule_paths(k + 1).len()),
                #[trigger] submodules@[k],
            ),
        decreases m.submodules.len() - j,
    {
        let ghost before = records@;
        proof {
            lemma_submodule_paths_grow(*m, j + 1, m.spec_submodules().len() as int);
        }
        let pm = assemble(&m.submodules[j], records);
        let ghost lo = own + m.submodule_paths(j as int).len();
        let ghost mid = own + m.submodule_paths(j + 1).len();
        assert(m.submodule_paths(j + 1).len() == m.submodule_paths(j as int).len() + m.spec_submodules()[j as int].tree_paths().len());
        assert(before.subrange(0, m.spec_submodules()[j as int].tree_paths().len() as int) =~= all.subrange(lo, mid));
        assert(records@ =~= all.subrange(mid, all.len() as int));
        submodules.push(pm);
        j = j + 1;
    }
    let ghost ps = submodules@;
    let name = m.name.clone();
    let pm = ParsedModule::new(name, variables, submodules);
    proof {
        let recs = all.subrange(0, m.tree_paths().len() as int);
        assert(recs.subrange(0, own as int) =~= all.subrange(0, own as int));
        assert forall|k: int| 0 <= k < ps.len() implies parsed_from(
            m.spec_submodules()[k],
            recs.subrange(own + m.submodule_paths(k).len(), own + m.submodule_paths(k + 1).len()),
            #[trigger] ps[k],
        ) by {
            lemma_submodule_paths_grow(*m, k + 1, m.spec_submodules().len() as int);
            lemma_submodule_paths_grow(*m, k, k + 1);
            assert(recs.subrange(own + m.submodule_paths(k).len(), own + m.submodule_paths(k + 1).len())
                =~= all.subrange(own + m.submodule_paths(k).len(), own + m.submodule_paths(k + 1).len()));
        }
        assert(parsed_from(*m, recs, pm));
    }
    pm
}

impl Module {
    /// Parses the sprites of the tree: `sources` holds the content of each
    /// sprite file, in the depth-first order of `sprite_paths_depth_first`.
    /// Each file becomes a sprite record named after its file stem; the first
    /// file that fails to convert, in that order, gives the error.
    pub fn parse(self, sources: &Vec<Vec<u8>>) -> (r: Result<ParsedModule, PngToWasm4SrcError>)
        requires
            sources@.len() == self.tree_paths().len(),
        ensures
            r matches Ok(pm) ==> parsed_with(self, sources@, pm),
            r matches Err(e) ==> exists|i: int|
                0 <= i < sources@.len() && sprite_outcome(self.tree_paths()[i], sources@[i]@, Err(e)) && forall|j: int|
                    0 <= j < i ==> converts(#[trigger] self.tree_paths()[j], sources@[j]@),
    {
        let paths = self.sprite_paths_depth_first();
        assert(views(paths@).len() == paths@.len());
        assert forall|i: int| 0 <= i < paths@.len() implies #[trigger] paths@[i]@ == self.tree_paths()[i] by {
            assert(views(paths@)[i] == paths@[i]@);
        }
        let mut records = match convert_sprite_files(&paths, sources) {
            Ok(records) => records,
            Err(e) => {
                proof {
                    let i = choose|i: int|
                        0 <= i < paths@.len() && sprite_outcome(paths@[i]@, sources@[i]@, Err(e)) && forall|j: int|
                            0 <= j < i ==> converts(#[trigger] paths@[j]@, sources@[j]@);
                    assert forall|j: int| 0 <= j < i implies converts(#[trigger] self.tree_paths()[j], sources@[j]@) by {
                        assert(converts(paths@[j]@, sources@[j]@));
                    }
                    assert(sprite_outcome(self.tree_paths()[i], sources@[i]@, Err(e)));
                }
                return Err(e);
            },
        };
        let ghost recs = records@;
        let pm = assemble(&self, &mut records);
        assert(recs.subrange(0, self.tree_paths().len() as int) =~= recs);
        assert forall|i: int| 0 <= i < recs.len() implies sprite_outcome(self.tree_paths()[i], sources@[i]@, Ok(#[trigger] recs[i])) by {
            assert(sprite_outcome(paths@[i]@, sources@[i]@, Ok(recs[i])));
        }
        assert(recs.len() == sources@.len());
        assert(parsed_from(self, recs, pm));
        assert(parsed_with(self, sources@, pm));
        Ok(pm)
    }
}

} // verus!
