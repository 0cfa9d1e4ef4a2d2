//! The table that maps a metric name to the measurement it is written under.
use vstd::prelude::*;

verus! {

/// One entry of the static schema table: a measurement and the metric names
/// that belong to it.
#[allow(non_camel_case_types)]
pub struct schema {
    pub measurement: String,
    pub metrics: Vec<String>,
}

/// The static schema table, entries in the order they are written.
pub struct Schemas {
    pub schema: Vec<schema>,
}

/// The (metric name, measurement) pairs that one table entry contributes.
pub open spec fn entry_pairs(s: schema) -> Seq<(Seq<char>, Seq<char>)> {
    s.metrics@.map_values(|m: String| (m@, s.measurement@))
}

/// All (metric name, measurement) pairs of a table, in table order.
pub open spec fn table_pairs(t: Seq<schema>) -> Seq<(Seq<char>, Seq<char>)>
    decreases t.len(),
{
    if t.len() == 0 {
        Seq::empty()
    } else {
        table_pairs(t.drop_last()) + entry_pairs(t.last())
    }
}

/// The mapping that inserting the pairs in order builds: a later pair for the
/// same metric name overwrites an earlier one.
pub open spec fn pairs_map(p: Seq<(Seq<char>, Seq<char>)>) -> Map<Seq<char>, Seq<char>>
    decreases p.len(),
{
    if p.len() == 0 {
        Map::empty()
    } else {
        pairs_map(p.drop_last()).insert(p.last().0, p.last().1)
    }
}

/// Metric name to measurement name, built once and read thereafter.
///
/// The pairs are kept in insertion order and looked up from the newest, in
/// place of a `HashMap<String, String>`: vstd specifies a hash map's lookups
/// only for keys whose hashing and equality it knows, which `String` keys are
/// not, whereas the pairs give the exact map that the contracts state.
pub struct SchemaIndex {
    entries: Vec<(String, String)>,
}

impl View for SchemaIndex {
    type V = Map<Seq<char>, Seq<char>>;

    open spec fn view(&self) -> Map<Seq<char>, Seq<char>> {
        pairs_map(self.pairs())
    }
}

impl SchemaIndex {
    /// The pairs in insertion order.
    pub closed spec fn pairs(&self) -> Seq<(Seq<char>, Seq<char>)> {
        self.entries@.map_values(|e: (String, String)| (e.0@, e.1@))
    }

    /// An index that maps no name.
    pub fn empty() -> (r: SchemaIndex)
        ensures
            r.pairs() == Seq::<(Seq<char>, Seq<char>)>::empty(),
            r@ == Map::<Seq<char>, Seq<char>>::empty(),
    {
        let r = SchemaIndex { entries: Vec::new() };
        assert(r.pairs() =~= Seq::<(Seq<char>, Seq<char>)>::empty());
        r
    }

    /// Maps `metric` to `measurement`, replacing what `metric` mapped to.
    pub fn insert(&mut self, metric: String, measurement: String)
        ensures
            final(self).pairs() == old(self).pairs().push((metric@, measurement@)),
            final(self)@ == old(self)@.insert(metric@, measurement@),
    {
        self.entries.push((metric, measurement));
        assert(self.pairs().drop_last() =~= old(self).pairs());
    }

    /// The measurement that `name` resolves to, if any.
    pub fn resolve(&self, name: &String) -> (r: Option<&String>)
        ensures
            r is Some <==> self@.contains_key(name@),
            r is Some ==> r->0@ == self@[name@],
    {
        let n = self.entries.len();
        let mut i: usize = n;
        while i > 0
            invariant
                i <= n,
                n == self.entries@.len(),
                forall|j: int| i <= j < n ==> self.pairs()[j].0 != name@,
            decreases i,
        {
            let e = &self.entries[i - 1];
            if e.0 == *name {
                proof {
                    lemma_map_of_concat(self.pairs().take(i - 1), self.pairs().skip(i - 1));
                    assert(self.pairs().take(i - 1) + self.pairs().skip(i - 1) =~= self.pairs());
                    assert(self.pairs().take(i as int).drop_last() =~= self.pairs().take(i - 1));
                    lemma_map_of_avoiding(self.pairs().skip(i - 1), name@);
                }
                return Some(&e.1);
            }
            i = i - 1;
        }
        proof {
            lemma_map_of_avoiding(self.pairs(), name@);
        }
        None
    }
}

/// Where no pair with the name follows index `k`, that name maps as it did
/// after the first `k` pairs; with `k == 0`, the name is absent.
proof fn lemma_map_of_avoiding(p: Seq<(Seq<char>, Seq<char>)>, name: Seq<char>)
    ensures
        (forall|j: int| 0 <= j < p.len() ==> p[j].0 != name) ==> !pairs_map(p).contains_key(name),
        p.len() > 0 && p[0].0 == name && (forall|j: int| 1 <= j < p.len() ==> p[j].0 != name)
            ==> pairs_map(p).contains_key(name) && pairs_map(p)[name] == p[0].1,
    decreases p.len(),
{
    if p.len() > 0 {
        lemma_map_of_avoiding(p.drop_last(), name);
        if p.len() == 1 {
            assert(p.drop_last().len() == 0);
        }
    }
}

proof fn lemma_map_of_concat(a: Seq<(Seq<char>, Seq<char>)>, b: Seq<(Seq<char>, Seq<char>)>)
    ensures
        pairs_map(a + b) == pairs_map(a).union_prefer_right(pairs_map(b)),
    decreases b.len(),
{
    if b.len() == 0 {
        assert(a + b =~= a);
        assert(pairs_map(a).union_prefer_right(pairs_map(b)) =~= pairs_map(a));
    } else {
        lemma_map_of_concat(a, b.drop_last());
        assert((a + b).drop_last() =~= a + b.drop_last());
        assert(pairs_map(a + b) =~= pairs_map(a).union_prefer_right(pairs_map(b)));
    }
}

/// Builds the index from the table: every metric name of every entry, in table
/// order, maps to its entry's measurement; a name listed under two entries
/// maps to the later one.
pub fn get_schema_map(schemas: &Schemas) -> (r: SchemaIndex)
    ensures
        r.pairs() == table_pairs(schemas.schema@),
        r@ == pairs_map(table_pairs(schemas.schema@)),
{
    let mut index = SchemaIndex::empty();
    let mut i: usize = 0;
    while i < schemas.schema.len()
        invariant
            i <= schemas.schema@.len(),
            index.pairs() == table_pairs(schemas.schema@.take(i as int)),
        decreases schemas.schema@.len() - i,
    {
        let entry = &schemas.schema[i];
        let mut j: usize = 0;
        while j < entry.metrics.len()
            invariant
                i < schemas.schema@.len(),
                *entry == schemas.schema@[i as int],
                j <= entry.metrics@.len(),
                index.pairs() == table_pairs(schemas.schema@.take(i as int)) + entry_pairs(*entry).take(j as int),
            decreases entry.metrics@.len() - j,
        {
            index.insert(entry.metrics[j].clone(), entry.measurement.clone());
            assert(entry_pairs(*entry).take(j + 1) =~= entry_pairs(*entry).take(j as int).push(
                entry_pairs(*entry)[j as int]));
            assert(index.pairs() =~= table_pairs(schemas.schema@.take(i as int)) + entry_pairs(*entry).take(j + 1));
            j = j + 1;
        }
        assert(entry_pairs(*entry).take(j as int) =~= entry_pairs(*entry));
        assert(schemas.schema@.take(i + 1).drop_last() =~= schemas.schema@.take(i as int));
        i = i + 1;
    }
    assert(schemas.schema@.take(i as int) =~= schemas.schema@);
    index
}

} // verus!
