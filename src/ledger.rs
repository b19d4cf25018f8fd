use vstd::prelude::*;

verus! {

/// One of the two tracking tables of a database: one for migrations, one for seeds.
pub enum Ledger {
    Migrations,
    Seeds,
}

impl Ledger {
    /// The statement that creates the tracking table unless it exists.
    pub open spec fn create_sql_spec(self) -> Seq<char> {
        match self {
            Ledger::Migrations => "CREATE TABLE IF NOT EXISTS _migrations (id TEXT PRIMARY KEY, applied_at TEXT NOT NULL DEFAULT CURRENT_TIMESTAMP)"@,
            Ledger::Seeds => "CREATE TABLE IF NOT EXISTS _seeds (id TEXT PRIMARY KEY, applied_at TEXT NOT NULL DEFAULT CURRENT_TIMESTAMP)"@,
        }
    }

    /// The query that lists every recorded id.
    pub open spec fn select_sql_spec(self) -> Seq<char> {
        match self {
            Ledger::Migrations => "SELECT id FROM _migrations"@,
            Ledger::Seeds => "SELECT id FROM _seeds"@,
        }
    }

    /// The statement that records one id; its one parameter is the id.
    pub open spec fn insert_sql_spec(self) -> Seq<char> {
        match self {
            Ledger::Migrations => "INSERT INTO _migrations(id) VALUES (?)"@,
            Ledger::Seeds => "INSERT INTO _seeds(id) VALUES (?)"@,
        }
    }

    pub fn create_sql(&self) -> (r: &'static str)
        ensures
            r@ == self.create_sql_spec(),
    {
        match self {
            Ledger::Migrations => "CREATE TABLE IF NOT EXISTS _migrations (id TEXT PRIMARY KEY, applied_at TEXT NOT NULL DEFAULT CURRENT_TIMESTAMP)",
            Ledger::Seeds => "CREATE TABLE IF NOT EXISTS _seeds (id TEXT PRIMARY KEY, applied_at TEXT NOT NULL DEFAULT CURRENT_TIMESTAMP)",
        }
    }

    pub fn select_sql(&self) -> (r: &'static str)
        ensures
            r@ == self.select_sql_spec(),
    {
        match self {
            Ledger::Migrations => "SELECT id FROM _migrations",
            Ledger::Seeds => "SELECT id FROM _seeds",
        }
    }

    pub fn insert_sql(&self) -> (r: &'static str)
        ensures
            r@ == self.insert_sql_spec(),
    {
        match self {
            Ledger::Migrations => "INSERT INTO _migrations(id) VALUES (?)",
            Ledger::Seeds => "INSERT INTO _seeds(id) VALUES (?)",
        }
    }
}

/// The ids recorded in a ledger, read for membership tests only.
pub struct AppliedIds {
    ids: Vec<String>,
}

/// The text of each string in a sequence.
pub open spec fn texts(v: Seq<String>) -> Seq<Seq<char>> {
    v.map_values(|s: String| s@)
}

impl View for AppliedIds {
    type V = Set<Seq<char>>;

    closed spec fn view(&self) -> Set<Seq<char>> {
        texts(self.ids@).to_set()
    }
}

impl AppliedIds {
    /// A set holding exactly the given ids.
    pub fn from_ids(ids: Vec<String>) -> (r: AppliedIds)
        ensures
            r@ == texts(ids@).to_set(),
    {
        AppliedIds { ids }
    }

    /// Whether `id` is recorded.
    pub fn contains(&self, id: &str) -> (r: bool)
        ensures
            r == self@.contains(id@),
    {
        let key = String::from_str(id);
        let mut j: usize = 0;
        while j < self.ids.len()
            invariant
                j <= self.ids@.len(),
                key@ == id@,
                forall|k: int| 0 <= k < j ==> self.ids@[k]@ != id@,
            decreases self.ids@.len() - j,
        {
            if self.ids[j] == key {
                assert(texts(self.ids@)[j as int] == id@);
                return true;
            }
            j = j + 1;
        }
        assert(!texts(self.ids@).contains(id@)) by {
            if texts(self.ids@).contains(id@) {
                let k = choose|k: int| 0 <= k < texts(self.ids@).len() && texts(self.ids@)[k] == id@;
                assert(self.ids@[k]@ == id@);
            }
        }
        false
    }

    /// Whether no id is recorded.
    pub fn is_empty(&self) -> (r: bool)
        ensures
            r == (self@ == Set::<Seq<char>>::empty()),
    {
        if self.ids.len() == 0 {
            assert(self@ =~= Set::<Seq<char>>::empty());
            true
        } else {
            assert(self@.contains(texts(self.ids@)[0]));
            false
        }
    }
}

} // verus!
