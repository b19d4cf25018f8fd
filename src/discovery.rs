//! Discovery and ordering of migration and seed files, for a build step.
//!
//! The build step lists a directory and hands each entry over as a [`FileEntry`]. The
//! functions here pick the entries that are migrations or seeds, take each one's id
//! from its file stem, sort them by id, and write the source text that embeds them.
use vstd::prelude::*;
use vstd::string::StrSliceExecFns;

verus! {

/// A directory entry: its full path, its file stem and extension where they are text,
/// and whether it is a regular file.
pub struct FileEntry {
    pub path: String,
    pub stem: Option<String>,
    pub extension: Option<String>,
    pub is_file: bool,
}

/// Lexicographic order on character sequences: the order of `str`.
pub open spec fn lex_le(a: Seq<char>, b: Seq<char>) -> bool
    decreases a.len(),
{
    if a.len() == 0 {
        true
    } else if b.len() == 0 {
        false
    } else if (a[0] as u32) != (b[0] as u32) {
        (a[0] as u32) < (b[0] as u32)
    } else {
        lex_le(a.drop_first(), b.drop_first())
    }
}

proof fn lemma_lex_total(a: Seq<char>, b: Seq<char>)
    ensures
        lex_le(a, b) || lex_le(b, a),
    decreases a.len(),
{
    if a.len() > 0 && b.len() > 0 && (a[0] as u32) == (b[0] as u32) {
        lemma_lex_total(a.drop_first(), b.drop_first());
    }
}

proof fn lemma_lex_trans(a: Seq<char>, b: Seq<char>, c: Seq<char>)
    requires
        lex_le(a, b),
        lex_le(b, c),
    ensures
        lex_le(a, c),
    decreases a.len(),
{
    if a.len() > 0 && b.len() > 0 && c.len() > 0 && (a[0] as u32) == (b[0] as u32) && (b[0] as u32) == (c[0] as u32) {
        lemma_lex_trans(a.drop_first(), b.drop_first(), c.drop_first());
    }
}

/// Equal characters in front leave the order to what follows them.
proof fn lemma_lex_skip(a: Seq<char>, b: Seq<char>, i: int)
    requires
        0 <= i <= a.len(),
        i <= b.len(),
        forall|j: int| 0 <= j < i ==> (a[j] as u32) == (b[j] as u32),
    ensures
        lex_le(a, b) == lex_le(a.skip(i), b.skip(i)),
    decreases i,
{
    if i > 0 {
        lemma_lex_skip(a.drop_first(), b.drop_first(), i - 1);
        assert(a.drop_first().skip(i - 1) =~= a.skip(i));
        assert(b.drop_first().skip(i - 1) =~= b.skip(i));
    } else {
        assert(a.skip(0) =~= a);
        assert(b.skip(0) =~= b);
    }
}

/// Whether `a` comes before `b` or equals it, character by character.
fn id_le(a: &str, b: &str) -> (r: bool)
    ensures
        r == lex_le(a@, b@),
{
    let n = a.unicode_len();
    let m = b.unicode_len();
    let mut i: usize = 0;
    while i < n && i < m
        invariant
            i <= n,
            i <= m,
            n == a@.len(),
            m == b@.len(),
            forall|j: int| 0 <= j < i ==> (a@[j] as u32) == (b@[j] as u32),
        decreases n - i,
    {
        let x = a.get_char(i) as u32;
        let y = b.get_char(i) as u32;
        if x != y {
            proof {
                lemma_lex_skip(a@, b@, i as int);
                assert(a@.skip(i as int)[0] == a@[i as int]);
                assert(b@.skip(i as int)[0] == b@[i as int]);
            }
            return x < y;
        }
        i = i + 1;
    }
    proof {
        lemma_lex_skip(a@, b@, i as int);
        if i == n {
            assert(a@.skip(i as int).len() == 0);
        } else {
            assert(b@.skip(i as int).len() == 0);
        }
    }
    i == n
}

/// An (id, path) pair as text.
pub open spec fn pair_view(p: (String, String)) -> (Seq<char>, Seq<char>) {
    (p.0@, p.1@)
}

pub open spec fn pairs_view(v: Seq<(String, String)>) -> Seq<(Seq<char>, Seq<char>)> {
    v.map_values(|p: (String, String)| pair_view(p))
}

/// Ids in ascending order.
pub open spec fn sorted_by_id(v: Seq<(Seq<char>, Seq<char>)>) -> bool {
    forall|p: int, q: int| 0 <= p < q < v.len() ==> lex_le(#[trigger] v[p].0, #[trigger] v[q].0)
}

/// What an entry contributes: its id and path, where its extension is `ext` and its
/// stem is text and not `skip`.
pub open spec fn entry_item(e: FileEntry, ext: Seq<char>, skip: Option<Seq<char>>) -> Option<(Seq<char>, Seq<char>)> {
    match (e.stem, e.extension) {
        (Some(s), Some(x)) => if x@ == ext && skip != Some(s@) {
            Some((s@, e.path@))
        } else {
            None
        },
        _ => None,
    }
}

/// The items of the entries, in directory order.
pub open spec fn selected(entries: Seq<FileEntry>, ext: Seq<char>, skip: Option<Seq<char>>) -> Seq<(Seq<char>, Seq<char>)>
    decreases entries.len(),
{
    if entries.len() == 0 {
        Seq::empty()
    } else {
        let rest = selected(entries.drop_last(), ext, skip);
        match entry_item(entries.last(), ext, skip) {
            Some(item) => rest.push(item),
            None => rest,
        }
    }
}

/// The text of an optional stem.
pub open spec fn skip_view(skip: Option<&str>) -> Option<Seq<char>> {
    match skip {
        Some(s) => Some(s@),
        None => None,
    }
}

fn text_eq(a: &String, b: &str) -> (r: bool)
    ensures
        r == (a@ == b@),
{
    let t = String::from_str(b);
    *a == t
}

/// The id and path of an entry with extension `ext` and a stem other than `skip`.
fn pick(e: &FileEntry, ext: &str, skip: Option<&str>) -> (r: Option<(String, String)>)
    ensures
        match r {
            Some(p) => entry_item(*e, ext@, skip_view(skip)) == Some(pair_view(p)),
            None => entry_item(*e, ext@, skip_view(skip)) is None,
        },
{
    match (&e.stem, &e.extension) {
        (Some(s), Some(x)) => {
            if !text_eq(x, ext) {
                return None;
            }
            let skipped = match skip {
                Some(k) => text_eq(s, k),
                None => false,
            };
            if skipped {
                None
            } else {
                Some((s.clone(), e.path.clone()))
            }
        },
        _ => None,
    }
}

/// Inserts `item` after every element whose id is not greater, keeping the order.
fn insert_sorted(v: &mut Vec<(String, String)>, item: (String, String))
    requires
        sorted_by_id(pairs_view(old(v)@)),
    ensures
        sorted_by_id(pairs_view(final(v)@)),
        pairs_view(final(v)@).to_multiset() == pairs_view(old(v)@).to_multiset().insert(pair_view(item)),
{
    let ghost w = pairs_view(v@);
    let mut j: usize = 0;
    while j < v.len() && id_le(v[j].0.as_str(), item.0.as_str())
        invariant
            j <= v@.len(),
            w == pairs_view(v@),
            forall|p: int| 0 <= p < j ==> lex_le(#[trigger] w[p].0, item.0@),
        decreases v@.len() - j,
    {
        j = j + 1;
    }
    let ghost x = pair_view(item);
    v.insert(j, item);
    assert(pairs_view(v@) =~= w.insert(j as int, x));
    proof {
        vstd::seq_lib::to_multiset_insert(w, j as int, x);
        let u = pairs_view(v@);
        if j < w.len() {
            lemma_lex_total(w[j as int].0, x.0);
        }
        assert forall|p: int, q: int| 0 <= p < q < u.len() implies lex_le(#[trigger] u[p].0, #[trigger] u[q].0) by {
            if q < j {
            } else if q == j {
            } else if p < j {
                assert(lex_le(w[p].0, w[q - 1].0));
            } else if p == j {
                if q - 1 > j {
                    lemma_lex_trans(x.0, w[j as int].0, w[q - 1].0);
                }
            }
        }
    }
}

/// The items of the entries, sorted by id.
fn collect_files(entries: &Vec<FileEntry>, ext: &str, skip: Option<&str>) -> (r: Vec<(String, String)>)
    ensures
        sorted_by_id(pairs_view(r@)),
        pairs_view(r@).to_multiset() == selected(entries@, ext@, skip_view(skip)).to_multiset(),
{
    let ghost sk = skip_view(skip);
    let mut r: Vec<(String, String)> = Vec::new();
    let mut i: usize = 0;
    assert(pairs_view(r@) =~= Seq::empty());
    assert(entries@.take(0) =~= Seq::empty());
    while i < entries.len()
        invariant
            i <= entries@.len(),
            sk == skip_view(skip),
            sorted_by_id(pairs_view(r@)),
            pairs_view(r@).to_multiset() == selected(entries@.take(i as int), ext@, sk).to_multiset(),
        decreases entries@.len() - i,
    {
        let ghost before = selected(entries@.take(i as int), ext@, sk);
        assert(entries@.take(i + 1).drop_last() =~= entries@.take(i as int));
        assert(entries@.take(i + 1).last() == entries@[i as int]);
        match pick(&entries[i], ext, skip) {
            Some(item) => {
                proof {
                    vstd::seq_lib::to_multiset_build(before, pair_view(item));
                    assert(selected(entries@.take(i + 1), ext@, sk) == before.push(pair_view(item)));
                }
                insert_sorted(&mut r, item);
            },
            None => {
                assert(selected(entries@.take(i + 1), ext@, sk) == before);
            },
        }
        i = i + 1;
    }
    assert(entries@.take(entries@.len() as int) =~= entries@);
    r
}

/// The migration files among the entries: those with extension `sql`, as (id, path)
/// pairs sorted by id, the id being the file stem.
pub fn collect_migration_files(entries: &Vec<FileEntry>) -> (r: Vec<(String, String)>)
    ensures
        sorted_by_id(pairs_view(r@)),
        pairs_view(r@).to_multiset() == selected(entries@, "sql"@, None).to_multiset(),
{
    collect_files(entries, "sql", None)
}

/// The seed files among the entries: those with extension `rs` other than the module
/// index `mod.rs`, as (id, path) pairs sorted by id, the id being the file stem.
pub fn collect_seed_files(entries: &Vec<FileEntry>) -> (r: Vec<(String, String)>)
    ensures
        sorted_by_id(pairs_view(r@)),
        pairs_view(r@).to_multiset() == selected(entries@, "rs"@, Some("mod"@)).to_multiset(),
{
    collect_files(entries, "rs", Some("mod"))
}

/// The entry of one migration in the embedded list.
pub open spec fn migration_entry(f: (Seq<char>, Seq<char>)) -> Seq<char> {
    "    ic_sql_migrate::Migration { id: \""@ + f.0 + "\", sql: include_str!(\""@ + f.1
        + "\") },\n"@
}

pub open spec fn migration_entries(files: Seq<(Seq<char>, Seq<char>)>) -> Seq<char>
    decreases files.len(),
{
    if files.len() == 0 {
        Seq::empty()
    } else {
        migration_entries(files.drop_last()) + migration_entry(files.last())
    }
}

/// The source of the embedded migration list: a slice expression with one entry per
/// file, in the order given.
pub open spec fn migrations_code(files: Seq<(Seq<char>, Seq<char>)>) -> Seq<char> {
    "&[\n"@ + migration_entries(files) + "]\n"@
}

/// The declaration of one seed module.
pub open spec fn seed_module(f: (Seq<char>, Seq<char>)) -> Seq<char> {
    "pub mod "@ + f.0 + ";\n"@
}

/// The entry of one seed in the embedded list.
pub open spec fn seed_entry(f: (Seq<char>, Seq<char>)) -> Seq<char> {
    "    Seed { id: \""@ + f.0 + "\", seed_fn: "@ + f.0 + "::seed },\n"@
}

pub open spec fn seed_modules(files: Seq<(Seq<char>, Seq<char>)>) -> Seq<char>
    decreases files.len(),
{
    if files.len() == 0 {
        Seq::empty()
    } else {
        seed_modules(files.drop_last()) + seed_module(files.last())
    }
}

pub open spec fn seed_entries(files: Seq<(Seq<char>, Seq<char>)>) -> Seq<char>
    decreases files.len(),
{
    if files.len() == 0 {
        Seq::empty()
    } else {
        seed_entries(files.drop_last()) + seed_entry(files.last())
    }
}

/// The source of the seeds module: one submodule per seed file, then the list of
/// seeds, both in the order given.
pub open spec fn seeds_code(files: Seq<(Seq<char>, Seq<char>)>) -> Seq<char> {
    "// This file is auto-generated by ic-sql-migrate\n// Do not edit manually\n\n"@ + seed_modules(files)
        + "\nuse ic_sql_migrate::{Seed, SqliteSeedFn};\n\npub static SEEDS: &[Seed<SqliteSeedFn>] = &[\n"@
        + seed_entries(files) + "];\n"@
}

/// Writes the embedded migration list for `(id, path)` pairs.
pub fn generate_migrations_code(migration_files: &[(String, String)]) -> (r: String)
    ensures
        r@ == migrations_code(pairs_view(migration_files@)),
{
    let ghost files = pairs_view(migration_files@);
    let mut code = String::from_str("&[\n");
    let mut i: usize = 0;
    while i < migration_files.len()
        invariant
            i <= files.len(),
            files == pairs_view(migration_files@),
            code@ == "&[\n"@ + migration_entries(files.take(i as int)),
        decreases files.len() - i,
    {
        let ghost before = code@;
        code.append("    ic_sql_migrate::Migration { id: \"");
        code.append(migration_files[i].0.as_str());
        code.append("\", sql: include_str!(\"");
        code.append(migration_files[i].1.as_str());
        code.append("\") },\n");
        assert(files.take(i + 1).drop_last() =~= files.take(i as int));
        assert(files.take(i + 1).last() == files[i as int]);
        assert(code@ =~= "&[\n"@ + migration_entries(files.take(i + 1)));
        i = i + 1;
    }
    assert(files.take(files.len() as int) =~= files);
    code.append("]\n");
    code
}

/// Writes the seeds module for `(id, path)` pairs.
pub fn generate_seeds_code(seed_files: &[(String, String)]) -> (r: String)
    ensures
        r@ == seeds_code(pairs_view(seed_files@)),
{
    let ghost files = pairs_view(seed_files@);
    let mut code = String::from_str("// This file is auto-generated by ic-sql-migrate\n// Do not edit manually\n\n");
    let ghost head = code@;
    let mut i: usize = 0;
    while i < seed_files.len()
        invariant
            i <= files.len(),
            files == pairs_view(seed_files@),
            code@ == head + seed_modules(files.take(i as int)),
        decreases files.len() - i,
    {
        code.append("pub mod ");
        code.append(seed_files[i].0.as_str());
        code.append(";\n");
        assert(files.take(i + 1).drop_last() =~= files.take(i as int));
        assert(files.take(i + 1).last() == files[i as int]);
        assert(code@ =~= head + seed_modules(files.take(i + 1)));
        i = i + 1;
    }
    assert(files.take(files.len() as int) =~= files);
    code.append("\nuse ic_sql_migrate::{Seed, SqliteSeedFn};\n\npub static SEEDS: &[Seed<SqliteSeedFn>] = &[\n");
    let ghost middle = code@;
    let mut k: usize = 0;
    while k < seed_files.len()
        invariant
            k <= files.len(),
            files == pairs_view(seed_files@),
            code@ == middle + seed_entries(files.take(k as int)),
        decreases files.len() - k,
    {
        code.append("    Seed { id: \"");
        code.append(seed_files[k].0.as_str());
        code.append("\", seed_fn: ");
        code.append(seed_files[k].0.as_str());
        code.append("::seed },\n");
        assert(files.take(k + 1).drop_last() =~= files.take(k as int));
        assert(files.take(k + 1).last() == files[k as int]);
        assert(code@ =~= middle + seed_entries(files.take(k + 1)));
        k = k + 1;
    }
    code.append("];\n");
    assert(code@ =~= seeds_code(files));
    code
}

/// What an entry contributes to a module list: its file name and its module name,
/// where it is a regular file whose name starts with `m` and ends with `.rs`.
pub open spec fn module_item(e: FileEntry) -> Option<(Seq<char>, Seq<char>)> {
    match (e.stem, e.extension) {
        (Some(s), Some(x)) => if e.is_file && x@ == "rs"@ && s@.len() > 0 && s@[0] == 'm' {
            Some((s@ + ".rs"@, s@))
        } else {
            None
        },
        _ => None,
    }
}

/// The module items of the entries, in directory order.
pub open spec fn selected_modules(entries: Seq<FileEntry>) -> Seq<(Seq<char>, Seq<char>)>
    decreases entries.len(),
{
    if entries.len() == 0 {
        Seq::empty()
    } else {
        let rest = selected_modules(entries.drop_last());
        match module_item(entries.last()) {
            Some(item) => rest.push(item),
            None => rest,
        }
    }
}

fn pick_module(e: &FileEntry) -> (r: Option<(String, String)>)
    ensures
        match r {
            Some(p) => module_item(*e) == Some(pair_view(p)),
            None => module_item(*e) is None,
        },
{
    match (&e.stem, &e.extension) {
        (Some(s), Some(x)) => {
            if !e.is_file || !text_eq(x, "rs") {
                return None;
            }
            let t = s.as_str();
            if t.unicode_len() == 0 || t.get_char(0) != 'm' {
                return None;
            }
            Some((s.clone().concat(".rs"), s.clone()))
        },
        _ => None,
    }
}

/// The module files among the entries: regular files whose name starts with `m` and
/// ends with `.rs`, as (file name, module name) pairs sorted by file name.
pub fn collect_module_files(entries: &Vec<FileEntry>) -> (r: Vec<(String, String)>)
    ensures
        sorted_by_id(pairs_view(r@)),
        pairs_view(r@).to_multiset() == selected_modules(entries@).to_multiset(),
{
    let mut r: Vec<(String, String)> = Vec::new();
    let mut i: usize = 0;
    assert(pairs_view(r@) =~= Seq::empty());
    assert(entries@.take(0) =~= Seq::empty());
    while i < entries.len()
        invariant
            i <= entries@.len(),
            sorted_by_id(pairs_view(r@)),
            pairs_view(r@).to_multiset() == selected_modules(entries@.take(i as int)).to_multiset(),
        decreases entries@.len() - i,
    {
        let ghost before = selected_modules(entries@.take(i as int));
        assert(entries@.take(i + 1).drop_last() =~= entries@.take(i as int));
        assert(entries@.take(i + 1).last() == entries@[i as int]);
        match pick_module(&entries[i]) {
            Some(item) => {
                proof {
                    vstd::seq_lib::to_multiset_build(before, pair_view(item));
                    assert(selected_modules(entries@.take(i + 1)) == before.push(pair_view(item)));
                }
                insert_sorted(&mut r, item);
            },
            None => {
                assert(selected_modules(entries@.take(i + 1)) == before);
            },
        }
        i = i + 1;
    }
    assert(entries@.take(entries@.len() as int) =~= entries@);
    r
}

pub open spec fn digit_char(d: nat) -> char {
    if d == 0 {
        '0'
    } else if d == 1 {
        '1'
    } else if d == 2 {
        '2'
    } else if d == 3 {
        '3'
    } else if d == 4 {
        '4'
    } else if d == 5 {
        '5'
    } else if d == 6 {
        '6'
    } else if d == 7 {
        '7'
    } else if d == 8 {
        '8'
    } else {
        '9'
    }
}

/// The decimal digits of `n`.
pub open spec fn decimal(n: nat) -> Seq<char>
    decreases n,
{
    if n < 10 {
        seq![digit_char(n)]
    } else {
        decimal(n / 10) + seq![digit_char(n % 10)]
    }
}

fn digit_str(d: usize) -> (r: &'static str)
    requires
        d < 10,
    ensures
        r@ == seq![digit_char(d as nat)],
{
    proof {
        reveal_strlit("0");
        reveal_strlit("1");
        reveal_strlit("2");
        reveal_strlit("3");
        reveal_strlit("4");
        reveal_strlit("5");
        reveal_strlit("6");
        reveal_strlit("7");
        reveal_strlit("8");
        reveal_strlit("9");
    }
    let r = if d == 0 {
        "0"
    } else if d == 1 {
        "1"
    } else if d == 2 {
        "2"
    } else if d == 3 {
        "3"
    } else if d == 4 {
        "4"
    } else if d == 5 {
        "5"
    } else if d == 6 {
        "6"
    } else if d == 7 {
        "7"
    } else if d == 8 {
        "8"
    } else {
        "9"
    };
    assert(r@ =~= seq![digit_char(d as nat)]);
    r
}

fn decimal_string(n: usize) -> (r: String)
    ensures
        r@ == decimal(n as nat),
    decreases n,
{
    let d = digit_str(n % 10);
    if n < 10 {
        String::from_str(d)
    } else {
        decimal_string(n / 10).concat(d)
    }
}

/// The declaration of the module of one file of `dir`.
pub open spec fn module_decl(dir: Seq<char>, f: (Seq<char>, Seq<char>)) -> Seq<char> {
    "#[path = \""@ + dir + "/"@ + f.0 + "\"] mod "@ + f.1 + ";\n"@
}

pub open spec fn module_decls(dir: Seq<char>, files: Seq<(Seq<char>, Seq<char>)>) -> Seq<char>
    decreases files.len(),
{
    if files.len() == 0 {
        Seq::empty()
    } else {
        module_decls(dir, files.drop_last()) + module_decl(dir, files.last())
    }
}

/// The entry of one module in the list of migrations.
pub open spec fn module_ref(f: (Seq<char>, Seq<char>)) -> Seq<char> {
    "    &"@ + f.1 + "::M as &dyn Migration,\n"@
}

pub open spec fn module_refs(files: Seq<(Seq<char>, Seq<char>)>) -> Seq<char>
    decreases files.len(),
{
    if files.len() == 0 {
        Seq::empty()
    } else {
        module_refs(files.drop_last()) + module_ref(files.last())
    }
}

/// The source of a module list: one module per file of `dir`, then a static array of
/// their migrations and a function that hands it out, both in the order given.
pub open spec fn module_list_code(dir: Seq<char>, files: Seq<(Seq<char>, Seq<char>)>) -> Seq<char> {
    module_decls(dir, files) + "\nuse migrations::Migration;\nstatic MIGRATIONS: [&'static dyn Migration; "@
        + decimal(files.len()) + "] = [\n"@ + module_refs(files)
        + "];\n\npub fn list_migrations() -> &'static [&'static dyn Migration] {\n    &MIGRATIONS\n}\n"@
}

/// Writes the module list for the (file name, module name) pairs of `dir`.
pub fn generate_module_list_code(dir: &str, files: &[(String, String)]) -> (r: String)
    ensures
        r@ == module_list_code(dir@, pairs_view(files@)),
{
    let ghost fs = pairs_view(files@);
    let mut code = String::new();
    let mut i: usize = 0;
    assert(code@ =~= module_decls(dir@, fs.take(0)));
    while i < files.len()
        invariant
            i <= fs.len(),
            fs == pairs_view(files@),
            code@ == module_decls(dir@, fs.take(i as int)),
        decreases fs.len() - i,
    {
        code.append("#[path = \"");
        code.append(dir);
        code.append("/");
        code.append(files[i].0.as_str());
        code.append("\"] mod ");
        code.append(files[i].1.as_str());
        code.append(";\n");
        assert(fs.take(i + 1).drop_last() =~= fs.take(i as int));
        assert(fs.take(i + 1).last() == fs[i as int]);
        assert(code@ =~= module_decls(dir@, fs.take(i + 1)));
        i = i + 1;
    }
    assert(fs.take(fs.len() as int) =~= fs);
    code.append("\nuse migrations::Migration;\nstatic MIGRATIONS: [&'static dyn Migration; ");
    let count = decimal_string(files.len());
    code.append(count.as_str());
    code.append("] = [\n");
    let ghost middle = code@;
    let mut k: usize = 0;
    while k < files.len()
        invariant
            k <= fs.len(),
            fs == pairs_view(files@),
            code@ == middle + module_refs(fs.take(k as int)),
        decreases fs.len() - k,
    {
        code.append("    &");
        code.append(files[k].1.as_str());
        code.append("::M as &dyn Migration,\n");
        assert(fs.take(k + 1).drop_last() =~= fs.take(k as int));
        assert(fs.take(k + 1).last() == fs[k as int]);
        assert(code@ =~= middle + module_refs(fs.take(k + 1)));
        k = k + 1;
    }
    code.append("];\n\npub fn list_migrations() -> &'static [&'static dyn Migration] {\n    &MIGRATIONS\n}\n");
    assert(code@ =~= module_list_code(dir@, fs));
    code
}

/// Where a build step looks for migration and seed files, relative to the package root.
pub struct Builder {
    migrations_dir: String,
    seeds_dir: String,
}

impl Builder {
    pub closed spec fn migrations_dir_spec(&self) -> Seq<char> {
        self.migrations_dir@
    }

    pub closed spec fn seeds_dir_spec(&self) -> Seq<char> {
        self.seeds_dir@
    }

    /// Migrations under `migrations`, seeds under `src/seeds`.
    pub fn new() -> (r: Self)
        ensures
            r.migrations_dir_spec() == "migrations"@,
            r.seeds_dir_spec() == "src/seeds"@,
    {
        Builder { migrations_dir: String::from_str("migrations"), seeds_dir: String::from_str("src/seeds") }
    }

    pub fn with_migrations_dir(self, dir: &str) -> (r: Self)
        ensures
            r.migrations_dir_spec() == dir@,
            r.seeds_dir_spec() == self.seeds_dir_spec(),
    {
        Builder { migrations_dir: String::from_str(dir), seeds_dir: self.seeds_dir }
    }

    pub fn with_seeds_dir(self, dir: &str) -> (r: Self)
        ensures
            r.migrations_dir_spec() == self.migrations_dir_spec(),
            r.seeds_dir_spec() == dir@,
    {
        Builder { migrations_dir: self.migrations_dir, seeds_dir: String::from_str(dir) }
    }

    pub fn migrations_dir(&self) -> (r: &str)
        ensures
            r@ == self.migrations_dir_spec(),
    {
        self.migrations_dir.as_str()
    }

    pub fn seeds_dir(&self) -> (r: &str)
        ensures
            r@ == self.seeds_dir_spec(),
    {
        self.seeds_dir.as_str()
    }
}

impl Default for Builder {
    fn default() -> (r: Self)
        ensures
            r.migrations_dir_spec() == "migrations"@,
            r.seeds_dir_spec() == "src/seeds"@,
    {
        Builder::new()
    }
}

} // verus!
