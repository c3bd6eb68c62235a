//! The tables of the metadata store, held as plain values: the installed
//! packages by name, and sets of pairs for the files and the dependency
//! edges. Each table keeps its primary key unique.

use vstd::prelude::*;
use crate::recipe::{HashSum, PackageName};
use crate::text::texts;

verus! {

/// One row of `packages`.
#[derive(Debug)]
pub struct InstalledPackage {
    pub name: PackageName,
    pub version: String,
    pub hash: HashSum,
}

/// One row of `package_files`: a file that a package placed on the host.
#[derive(Debug)]
pub struct InstalledFile {
    pub package_name: PackageName,
    pub filepath: String,
}

/// One row of `dependencies`: `package` was installed with a dependency on
/// `depends_on`.
#[derive(Debug)]
pub struct DependencyEdge {
    pub package: PackageName,
    pub depends_on: PackageName,
}

/// The pairs of texts that a list of rows holds, in order.
pub open spec fn pair_rows(rows: Seq<(String, String)>) -> Seq<(Seq<char>, Seq<char>)> {
    Seq::new(rows.len(), |i: int| (rows[i].0@, rows[i].1@))
}

/// The pairs of `s` whose first part is not `left`.
pub open spec fn without_left(s: Set<(Seq<char>, Seq<char>)>, left: Seq<char>) -> Set<
    (Seq<char>, Seq<char>),
> {
    Set::new(|p: (Seq<char>, Seq<char>)| s.contains(p) && p.0 != left)
}

/// The second parts of the pairs of `s` whose first part is `left`.
pub open spec fn rights_of(s: Set<(Seq<char>, Seq<char>)>, left: Seq<char>) -> Set<Seq<char>> {
    Set::new(|b: Seq<char>| s.contains((left, b)))
}

/// The first parts of the pairs of `s` whose second part is `right`.
pub open spec fn lefts_of(s: Set<(Seq<char>, Seq<char>)>, right: Seq<char>) -> Set<Seq<char>> {
    Set::new(|a: Seq<char>| s.contains((a, right)))
}

/// Whether `p` is one of the first `i` rows.
pub open spec fn among_first(rows: Seq<(Seq<char>, Seq<char>)>, i: int, p: (Seq<char>, Seq<char>)) -> bool {
    exists|k: int| 0 <= k < i && k < rows.len() && #[trigger] rows[k] == p
}

/// What is among the first `i` rows is among the first `i + 1`.
pub proof fn lemma_among_more(rows: Seq<(Seq<char>, Seq<char>)>, i: int, p: (Seq<char>, Seq<char>))
    requires
        among_first(rows, i, p),
    ensures
        among_first(rows, i + 1, p),
{
    let k = choose|k: int| 0 <= k < i && k < rows.len() && #[trigger] rows[k] == p;
    assert(rows[k] == p);
}

/// The first part of a pair where `left` is set, else the second.
pub open spec fn side(p: (Seq<char>, Seq<char>), left: bool) -> Seq<char> {
    if left {
        p.0
    } else {
        p.1
    }
}

/// The pair with `key` as its first part and `value` as its second where
/// `key_left` is set, else the other way round.
pub open spec fn pair_of(key: Seq<char>, value: Seq<char>, key_left: bool) -> (Seq<char>, Seq<char>) {
    if key_left {
        (key, value)
    } else {
        (value, key)
    }
}

/// The values that `s` pairs with `key`, the key standing first where
/// `key_left` is set.
pub open spec fn across(s: Set<(Seq<char>, Seq<char>)>, key: Seq<char>, key_left: bool) -> Set<
    Seq<char>,
> {
    Set::new(|v: Seq<char>| s.contains(pair_of(key, v, key_left)))
}

/// A table of two text columns whose primary key is the whole row: a set of
/// pairs.
pub struct PairSet {
    rows: Vec<(String, String)>,
}

impl View for PairSet {
    type V = Set<(Seq<char>, Seq<char>)>;

    closed spec fn view(&self) -> Set<(Seq<char>, Seq<char>)> {
        pair_rows(self.rows@).to_set()
    }
}

impl PairSet {
    #[verifier::type_invariant]
    closed spec fn distinct(self) -> bool {
        pair_rows(self.rows@).no_duplicates()
    }

    /// A table is finite.
    pub proof fn lemma_finite(&self)
        ensures
            self@.finite(),
    {
        vstd::seq_lib::seq_to_set_is_finite(pair_rows(self.rows@));
    }

    /// The table without rows.
    pub fn new() -> (r: Self)
        ensures
            r@ == Set::<(Seq<char>, Seq<char>)>::empty(),
    {
        let r = PairSet { rows: Vec::new() };
        assert(r@ =~= Set::<(Seq<char>, Seq<char>)>::empty());
        r
    }

    /// The number of rows.
    pub fn len(&self) -> (n: usize)
        ensures
            self@.finite(),
            n == self@.len(),
    {
        proof {
            use_type_invariant(self);
            self.lemma_finite();
            pair_rows(self.rows@).unique_seq_to_set();
        }
        self.rows.len()
    }

    /// Whether the table holds the row `(left, right)`.
    pub fn contains(&self, left: &str, right: &str) -> (r: bool)
        ensures
            r == self@.contains((left@, right@)),
    {
        let a = left.to_owned();
        let b = right.to_owned();
        let ghost rows = pair_rows(self.rows@);
        let mut i: usize = 0;
        while i < self.rows.len()
            invariant
                a@ == left@,
                b@ == right@,
                rows == pair_rows(self.rows@),
                i <= self.rows@.len(),
                forall|k: int| 0 <= k < i ==> rows[k] != (left@, right@),
            decreases self.rows.len() - i,
        {
            if self.rows[i].0 == a && self.rows[i].1 == b {
                assert(rows[i as int] == (left@, right@));
                return true;
            }
            i = i + 1;
        }
        false
    }

    /// Puts the row `(left, right)` into the table; nothing changes where it
    /// is there already.
    pub fn insert(&mut self, left: String, right: String)
        ensures
            final(self)@ == old(self)@.insert((left@, right@)),
    {
        proof {
            use_type_invariant(&*self);
        }
        let ghost before = pair_rows(self.rows@);
        let ghost row = (left@, right@);
        if self.contains(left.as_str(), right.as_str()) {
            assert(self@ =~= self@.insert(row));
        } else {
            let mut taken = PairSet { rows: Vec::new() };
            core::mem::swap(self, &mut taken);
            let PairSet { rows: mut list } = taken;
            list.push((left, right));
            proof {
                assert(pair_rows(list@) =~= before.push(row));
                before.lemma_push_to_set_commute(row);
                assert(!before.contains(row));
            }
            *self = PairSet { rows: list };
        }
    }

    /// Deletes every row whose first column is `left`.
    pub fn remove_left(&mut self, left: &str)
        ensures
            final(self)@ == without_left(old(self)@, left@),
    {
        proof {
            use_type_invariant(&*self);
        }
        let key = left.to_owned();
        let ghost before = pair_rows(self.rows@);
        let mut taken = PairSet { rows: Vec::new() };
        core::mem::swap(self, &mut taken);
        let PairSet { rows: list } = taken;
        let mut kept: Vec<(String, String)> = Vec::new();
        let mut i: usize = 0;
        while i < list.len()
            invariant
                key@ == left@,
                before == pair_rows(list@),
                before.no_duplicates(),
                i <= list.len(),
                forall|j: int|
                    0 <= j < kept@.len() ==> (#[trigger] pair_rows(kept@)[j]).0 != left@
                        && among_first(before, i as int, pair_rows(kept@)[j]),
                forall|k: int|
                    0 <= k < i && (#[trigger] before[k]).0 != left@ ==> pair_rows(kept@).contains(
                        before[k],
                    ),
                pair_rows(kept@).no_duplicates(),
            decreases list.len() - i,
        {
            let ghost so_far = pair_rows(kept@);
            if list[i].0 != key {
                let row = (list[i].0.clone(), list[i].1.clone());
                kept.push(row);
                proof {
                    let now = pair_rows(kept@);
                    assert(now =~= so_far.push(before[i as int]));
                    assert forall|k: int|
                        0 <= k < i + 1 && (#[trigger] before[k]).0 != left@ implies now.contains(
                        before[k],
                    ) by {
                        if k < i {
                            let j = choose|j: int| 0 <= j < so_far.len() && so_far[j] == before[k];
                            assert(now[j] == before[k]);
                        } else {
                            assert(now[so_far.len() as int] == before[k]);
                        }
                    }
                    assert forall|j: int| 0 <= j < now.len() implies (#[trigger] now[j]).0 != left@
                        && among_first(before, i + 1, now[j]) by {
                        if j < so_far.len() {
                            assert(now[j] == so_far[j]);
                            assert(among_first(before, i as int, so_far[j]));
                            let k = choose|k: int|
                                0 <= k < i && k < before.len() && #[trigger] before[k] == so_far[j];
                            assert(before[k] == now[j]);
                        } else {
                            assert(before[i as int] == now[j]);
                        }
                    }
                    assert(now.no_duplicates()) by {
                        assert forall|x: int, y: int|
                            0 <= x < now.len() && 0 <= y < now.len() && x != y implies now[x]
                            != now[y] by {
                            if x < so_far.len() && y < so_far.len() {
                                assert(so_far[x] != so_far[y]);
                            } else if x < so_far.len() {
                                assert(among_first(before, i as int, so_far[x]));
                                let k = choose|k: int|
                                    0 <= k < i && k < before.len() && #[trigger] before[k]
                                        == so_far[x];
                                assert(before[k] != before[i as int]);
                            } else {
                                assert(among_first(before, i as int, so_far[y]));
                                let k = choose|k: int|
                                    0 <= k < i && k < before.len() && #[trigger] before[k]
                                        == so_far[y];
                                assert(before[k] != before[i as int]);
                            }
                        }
                    }
                }
            } else {
                proof {
                    assert forall|j: int| 0 <= j < so_far.len() implies among_first(
                        before,
                        i + 1,
                        #[trigger] so_far[j],
                    ) by {
                        assert(among_first(before, i as int, so_far[j]));
                        let k = choose|k: int|
                            0 <= k < i && k < before.len() && #[trigger] before[k] == so_far[j];
                        assert(before[k] == so_far[j]);
                    }
                }
            }
            i = i + 1;
        }
        proof {
            let now = pair_rows(kept@);
            assert forall|p: (Seq<char>, Seq<char>)|
                now.to_set().contains(p) <==> without_left(before.to_set(), left@).contains(p) by {
                if now.contains(p) {
                    let j = choose|j: int| 0 <= j < now.len() && now[j] == p;
                    assert(among_first(before, i as int, now[j]));
                    let k = choose|k: int|
                        0 <= k < i && k < before.len() && #[trigger] before[k] == now[j];
                    assert(before.contains(p));
                }
                if before.contains(p) && p.0 != left@ {
                    let k = choose|k: int| 0 <= k < before.len() && before[k] == p;
                    assert(now.contains(before[k]));
                }
            }
            assert(now.to_set() =~= without_left(before.to_set(), left@));
        }
        *self = PairSet { rows: kept };
    }

    /// One column of every row whose other column is `key`, each value
    /// once: the second column of the rows whose first is `key` where
    /// `by_left` is set, else the first column of the rows whose second is
    /// `key`.
    fn select(&self, key: &str, by_left: bool) -> (r: Vec<String>)
        ensures
            texts(r@).no_duplicates(),
            texts(r@).to_set() == across(self@, key@, by_left),
    {
        proof {
            use_type_invariant(self);
        }
        let wanted = key.to_owned();
        let ghost rows = pair_rows(self.rows@);
        let mut found: Vec<String> = Vec::new();
        let mut i: usize = 0;
        while i < self.rows.len()
            invariant
                wanted@ == key@,
                rows == pair_rows(self.rows@),
                rows.no_duplicates(),
                i <= self.rows@.len(),
                forall|j: int|
                    0 <= j < found@.len() ==> among_first(
                        rows,
                        i as int,
                        pair_of(key@, #[trigger] texts(found@)[j], by_left),
                    ),
                forall|k: int|
                    0 <= k < i && side(#[trigger] rows[k], by_left) == key@ ==> texts(found@).contains(
                        side(rows[k], !by_left),
                    ),
                texts(found@).no_duplicates(),
            decreases self.rows.len() - i,
        {
            let ghost so_far = texts(found@);
            let hit = if by_left {
                self.rows[i].0 == wanted
            } else {
                self.rows[i].1 == wanted
            };
            assert(hit == (side(rows[i as int], by_left) == key@));
            if hit {
                let value = if by_left {
                    self.rows[i].1.clone()
                } else {
                    self.rows[i].0.clone()
                };
                found.push(value);
                proof {
                    let now = texts(found@);
                    let other = side(rows[i as int], !by_left);
                    assert(now =~= so_far.push(other));
                    assert(rows[i as int] == pair_of(key@, other, by_left));
                    assert forall|k: int|
                        0 <= k < i + 1 && side(#[trigger] rows[k], by_left) == key@ implies now.contains(
                        side(rows[k], !by_left),
                    ) by {
                        if k < i {
                            let j = choose|j: int|
                                0 <= j < so_far.len() && so_far[j] == side(rows[k], !by_left);
                            assert(now[j] == side(rows[k], !by_left));
                        } else {
                            assert(now[so_far.len() as int] == side(rows[k], !by_left));
                        }
                    }
                    assert forall|j: int| 0 <= j < now.len() implies among_first(
                        rows,
                        i + 1,
                        pair_of(key@, #[trigger] now[j], by_left),
                    ) by {
                        if j < so_far.len() {
                            assert(now[j] == so_far[j]);
                            lemma_among_more(rows, i as int, pair_of(key@, so_far[j], by_left));
                        } else {
                            assert(rows[i as int] == pair_of(key@, now[j], by_left));
                        }
                    }
                    assert(now.no_duplicates()) by {
                        assert forall|x: int, y: int|
                            0 <= x < now.len() && 0 <= y < now.len() && x != y implies now[x]
                            != now[y] by {
                            if x < so_far.len() && y < so_far.len() {
                                assert(so_far[x] != so_far[y]);
                            } else {
                                let old = if x < so_far.len() {
                                    x
                                } else {
                                    y
                                };
                                let p = pair_of(key@, so_far[old], by_left);
                                assert(among_first(rows, i as int, p));
                                let k = choose|k: int|
                                    0 <= k < i && k < rows.len() && #[trigger] rows[k] == p;
                                assert(rows[k] != rows[i as int]);
                            }
                        }
                    }
                }
            } else {
                proof {
                    assert forall|j: int| 0 <= j < so_far.len() implies among_first(
                        rows,
                        i + 1,
                        pair_of(key@, #[trigger] so_far[j], by_left),
                    ) by {
                        lemma_among_more(rows, i as int, pair_of(key@, so_far[j], by_left));
                    }
                }
            }
            i = i + 1;
        }
        proof {
            let now = texts(found@);
            assert forall|v: Seq<char>|
                now.to_set().contains(v) <==> across(self@, key@, by_left).contains(v) by {
                if now.contains(v) {
                    let j = choose|j: int| 0 <= j < now.len() && now[j] == v;
                    let p = pair_of(key@, now[j], by_left);
                    assert(among_first(rows, i as int, p));
                    let k = choose|k: int| 0 <= k < i && k < rows.len() && #[trigger] rows[k] == p;
                    assert(rows.contains(p));
                }
                if rows.contains(pair_of(key@, v, by_left)) {
                    let k = choose|k: int|
                        0 <= k < rows.len() && rows[k] == pair_of(key@, v, by_left);
                    assert(side(rows[k], by_left) == key@);
                    assert(now.contains(side(rows[k], !by_left)));
                }
            }
            assert(now.to_set() =~= across(self@, key@, by_left));
        }
        found
    }

    /// The second column of every row whose first column is `left`, each
    /// value once.
    pub fn select_right(&self, left: &str) -> (r: Vec<String>)
        ensures
            texts(r@).no_duplicates(),
            texts(r@).to_set() == rights_of(self@, left@),
    {
        let found = self.select(left, true);
        assert(across(self@, left@, true) =~= rights_of(self@, left@));
        found
    }

    /// The first column of every row whose second column is `right`, each
    /// value once.
    pub fn select_left(&self, right: &str) -> (r: Vec<String>)
        ensures
            texts(r@).no_duplicates(),
            texts(r@).to_set() == lefts_of(self@, right@),
    {
        let found = self.select(right, false);
        assert(across(self@, right@, false) =~= lefts_of(self@, right@));
        found
    }

    /// Puts every row of `rows` into the table.
    pub fn insert_all(&mut self, rows: &Vec<(String, String)>)
        ensures
            final(self)@ == old(self)@.union(pair_rows(rows@).to_set()),
    {
        let ghost before = self@;
        let ghost all = pair_rows(rows@);
        let mut i: usize = 0;
        assert(self@ =~= before.union(all.take(0).to_set()));
        while i < rows.len()
            invariant
                all == pair_rows(rows@),
                i <= rows.len(),
                self@ == before.union(all.take(i as int).to_set()),
            decreases rows.len() - i,
        {
            self.insert(rows[i].0.clone(), rows[i].1.clone());
            proof {
                let prev = all.take(i as int);
                assert(all.take(i + 1) =~= prev.push(all[i as int]));
                prev.lemma_push_to_set_commute(all[i as int]);
                assert(self@ =~= before.union(all.take(i + 1).to_set()));
            }
            i = i + 1;
        }
        assert(all.take(rows.len() as int) =~= all);
    }

    /// Every row, each once.
    pub fn rows(&self) -> (r: &Vec<(String, String)>)
        ensures
            pair_rows(r@).no_duplicates(),
            pair_rows(r@).to_set() == self@,
    {
        proof {
            use_type_invariant(self);
        }
        &self.rows
    }
}

/// The names of a list of package rows, in order.
pub open spec fn package_names(rows: Seq<InstalledPackage>) -> Seq<Seq<char>> {
    Seq::new(rows.len(), |i: int| rows[i].name@)
}

/// The table `packages`: version and hash of each installed package, by
/// name.
pub struct PackageTable {
    rows: Vec<InstalledPackage>,
}

impl View for PackageTable {
    type V = Map<Seq<char>, (Seq<char>, Seq<char>)>;

    /// Version and hash of each installed package.
    closed spec fn view(&self) -> Map<Seq<char>, (Seq<char>, Seq<char>)> {
        Map::new(
            |n: Seq<char>| package_names(self.rows@).contains(n),
            |n: Seq<char>|
                {
                    let row = self.rows@[package_names(self.rows@).index_of(n)];
                    (row.version@, row.hash@)
                },
        )
    }
}

impl PackageTable {
    #[verifier::type_invariant]
    closed spec fn distinct(self) -> bool {
        package_names(self.rows@).no_duplicates()
    }

    /// A table is finite.
    pub proof fn lemma_finite(&self)
        ensures
            self@.dom().finite(),
    {
        let names = package_names(self.rows@);
        vstd::seq_lib::seq_to_set_is_finite(names);
        assert(self@.dom() =~= names.to_set());
    }

    /// The table without rows.
    pub fn new() -> (r: Self)
        ensures
            r@ == Map::<Seq<char>, (Seq<char>, Seq<char>)>::empty(),
    {
        let r = PackageTable { rows: Vec::new() };
        assert(r@ =~= Map::<Seq<char>, (Seq<char>, Seq<char>)>::empty());
        r
    }

    /// The number of rows.
    pub fn len(&self) -> (n: usize)
        ensures
            self@.dom().finite(),
            n == self@.dom().len(),
    {
        proof {
            use_type_invariant(self);
            self.lemma_finite();
            let names = package_names(self.rows@);
            names.unique_seq_to_set();
            assert(self@.dom() =~= names.to_set());
        }
        self.rows.len()
    }

    fn position(&self, name: &str) -> (r: Option<usize>)
        ensures
            match r {
                Some(i) => i < self.rows@.len() && self.rows@[i as int].name@ == name@,
                None => !package_names(self.rows@).contains(name@),
            },
    {
        let key = name.to_owned();
        let mut i: usize = 0;
        while i < self.rows.len()
            invariant
                key@ == name@,
                i <= self.rows@.len(),
                forall|k: int| 0 <= k < i ==> package_names(self.rows@)[k] != name@,
            decreases self.rows.len() - i,
        {
            if self.rows[i].name.0 == key {
                return Some(i);
            }
            i = i + 1;
        }
        None
    }

    /// The row of the package `name`, if it is installed.
    pub fn get(&self, name: &str) -> (r: Option<&InstalledPackage>)
        ensures
            match r {
                Some(row) => self@.dom().contains(name@) && row.name@ == name@ && self@[name@] == (
                    row.version@,
                    row.hash@,
                ),
                None => !self@.dom().contains(name@),
            },
    {
        proof {
            use_type_invariant(self);
        }
        let ghost names = package_names(self.rows@);
        match self.position(name) {
            Some(i) => {
                proof {
                    assert(names[i as int] == name@);
                    let j = names.index_of(name@);
                    assert(names[j] == name@);
                    assert(j == i);
                }
                Some(&self.rows[i])
            },
            None => None,
        }
    }

    /// Puts `row` into the table. A row of the same name is replaced.
    pub fn upsert(&mut self, row: InstalledPackage)
        ensures
            final(self)@ == old(self)@.insert(row.name@, (row.version@, row.hash@)),
    {
        proof {
            use_type_invariant(&*self);
        }
        let ghost before = *self;
        let ghost old_names = package_names(self.rows@);
        let ghost key = row.name@;
        let ghost value = (row.version@, row.hash@);
        let found = self.position(row.name.0.as_str());
        let mut taken = PackageTable { rows: Vec::new() };
        core::mem::swap(self, &mut taken);
        let PackageTable { rows: mut list } = taken;
        match found {
            Some(i) => {
                list.set(i, row);
                assert(package_names(list@) =~= old_names);
                *self = PackageTable { rows: list };
                proof {
                    let names = package_names(self.rows@);
                    assert(names =~= old_names);
                    assert(old_names[i as int] == key);
                    assert forall|n: Seq<char>| self@.dom().contains(n) implies #[trigger] self@[n]
                        == before@.insert(key, value)[n] by {
                        let j = names.index_of(n);
                        assert(names[j] == n);
                        if n == key {
                            assert(names[i as int] == n);
                            assert(j == i);
                        } else {
                            assert(j != i);
                        }
                    }
                    assert(self@.dom() =~= before@.insert(key, value).dom());
                    assert(self@ =~= before@.insert(key, value));
                }
            },
            None => {
                list.push(row);
                proof {
                    let pushed = package_names(list@);
                    assert(pushed =~= old_names.push(key));
                    assert forall|x: int, y: int|
                        0 <= x < pushed.len() && 0 <= y < pushed.len() && x != y implies pushed[x]
                        != pushed[y] by {
                        if x < old_names.len() && y < old_names.len() {
                            assert(old_names[x] != old_names[y]);
                        } else if x < old_names.len() {
                            assert(old_names[x] == pushed[x]);
                        } else {
                            assert(old_names[y] == pushed[y]);
                        }
                    }
                }
                *self = PackageTable { rows: list };
                proof {
                    let names = package_names(self.rows@);
                    assert(names =~= old_names.push(key));
                    let last = old_names.len() as int;
                    assert(names[last] == key);
                    assert forall|n: Seq<char>| #[trigger]
                        self@.dom().contains(n) <==> before@.insert(key, value).dom().contains(
                            n,
                        ) by {
                        if names.contains(n) {
                            let j = names.index_of(n);
                            assert(names[j] == n);
                            if j < last {
                                assert(old_names[j] == n);
                            }
                        }
                        if old_names.contains(n) {
                            let j = old_names.index_of(n);
                            assert(names[j] == n);
                        }
                    }
                    assert forall|n: Seq<char>| self@.dom().contains(n) implies #[trigger] self@[n]
                        == before@.insert(key, value)[n] by {
                        let j = names.index_of(n);
                        assert(names[j] == n);
                        if n == key {
                            assert(j == last);
                        } else {
                            assert(j < last);
                            let k = old_names.index_of(n);
                            assert(old_names[j] == n);
                            assert(old_names[k] == n);
                            assert(k == j);
                        }
                    }
                    assert(self@.dom() =~= before@.insert(key, value).dom());
                    assert(self@ =~= before@.insert(key, value));
                }
            },
        }
    }

    /// Deletes the row of the package `name`, if there is one.
    pub fn remove(&mut self, name: &str)
        ensures
            final(self)@ == old(self)@.remove(name@),
    {
        proof {
            use_type_invariant(&*self);
        }
        let ghost before = *self;
        let ghost old_names = package_names(self.rows@);
        let found = self.position(name);
        match found {
            None => {
                assert(self@ =~= before@.remove(name@));
            },
            Some(i) => {
                let mut taken = PackageTable { rows: Vec::new() };
                core::mem::swap(self, &mut taken);
                let PackageTable { rows: mut list } = taken;
                let ghost old_rows = list@;
                list.remove(i);
                proof {
                    let cut = package_names(list@);
                    assert(cut =~= old_names.remove(i as int));
                    assert forall|x: int, y: int|
                        0 <= x < cut.len() && 0 <= y < cut.len() && x != y implies cut[x]
                        != cut[y] by {
                        let ox = if x < i { x } else { x + 1 };
                        let oy = if y < i { y } else { y + 1 };
                        assert(cut[x] == old_names[ox]);
                        assert(cut[y] == old_names[oy]);
                    }
                }
                *self = PackageTable { rows: list };
                proof {
                    let names = package_names(self.rows@);
                    assert(names =~= old_names.remove(i as int));
                    assert(old_names[i as int] == name@);
                    assert forall|j: int| 0 <= j < names.len() implies #[trigger] names[j] == (if j
                        < i {
                        old_names[j]
                    } else {
                        old_names[j + 1]
                    }) by {}
                    assert(names.no_duplicates());
                    assert forall|n: Seq<char>| #[trigger]
                        self@.dom().contains(n) <==> before@.remove(name@).dom().contains(n) by {
                        if names.contains(n) {
                            let j = names.index_of(n);
                            assert(names[j] == n);
                            if j < i {
                                assert(old_names[j] == n);
                            } else {
                                assert(old_names[j + 1] == n);
                            }
                        }
                        if old_names.contains(n) && n != name@ {
                            let j = old_names.index_of(n);
                            assert(old_names[j] == n);
                            if j < i {
                                assert(names[j] == n);
                            } else {
                                assert(names[j - 1] == n);
                            }
                        }
                    }
                    assert forall|n: Seq<char>| self@.dom().contains(n) implies #[trigger] self@[n]
                        == before@.remove(name@)[n] by {
                        let j = names.index_of(n);
                        assert(names[j] == n);
                        let k = old_names.index_of(n);
                        if j < i {
                            assert(old_names[j] == n);
                            assert(old_names[k] == n);
                            assert(k == j);
                        } else {
                            assert(old_names[j + 1] == n);
                            assert(old_names[k] == n);
                            assert(k == j + 1);
                        }
                    }
                    assert(self@.dom() =~= before@.remove(name@).dom());
                    assert(self@ =~= before@.remove(name@));
                }
            },
        }
    }

    /// Every row, one per installed package.
    pub fn rows(&self) -> (r: &Vec<InstalledPackage>)
        ensures
            package_names(r@).no_duplicates(),
            package_names(r@).to_set() == self@.dom(),
            forall|i: int|
                0 <= i < r@.len() ==> self@[(#[trigger] r@[i]).name@] == (
                    r@[i].version@,
                    r@[i].hash@,
                ),
    {
        proof {
            use_type_invariant(self);
            let names = package_names(self.rows@);
            assert(self@.dom() =~= names.to_set());
            assert forall|i: int| 0 <= i < self.rows@.len() implies self@[(
                #[trigger] self.rows@[i]).name@] == (self.rows@[i].version@, self.rows@[i].hash@) by {
                let n = self.rows@[i].name@;
                assert(names[i] == n);
                let j = names.index_of(n);
                assert(names[j] == n);
                assert(j == i);
            }
        }
        &self.rows
    }
}

} // verus!
