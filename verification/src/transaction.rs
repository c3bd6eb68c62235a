//! The transaction manager: what an install or a removal does to the
//! metadata store and which files it places on, or deletes from, the host.
//!
//! The store is held here as plain values. The program around the library
//! moves the files and writes the rows that the plans name, all rows of one
//! plan in one database transaction.

use vstd::prelude::*;
use crate::error::{dependency_error, ErrorKind, ErrorView, RavenError};
use crate::metadata::{lefts_of, pair_rows, rights_of, without_left, DependencyEdge,
    InstalledFile, InstalledPackage, PackageTable, PairSet};
use crate::recipe::{PackageName, Recipe, RecipeView};
use crate::text::{first_token, join_path, join_strings, join_texts, leading_token, path_join,
    texts};

verus! {

/// The content of the metadata store.
pub struct Metadata {
    /// `packages`: version and hash of each installed package, by name.
    pub packages: Map<Seq<char>, (Seq<char>, Seq<char>)>,
    /// `package_files`: the pairs of package name and absolute file path.
    pub files: Set<(Seq<char>, Seq<char>)>,
    /// `dependencies`: the pairs of package name and the name of a package
    /// that it depends on.
    pub edges: Set<(Seq<char>, Seq<char>)>,
}

/// Whether every file and every dependency edge belongs to an installed
/// package.
pub open spec fn consistent(m: Metadata) -> bool {
    &&& forall|p: (Seq<char>, Seq<char>)| m.files.contains(p) ==> m.packages.dom().contains(p.0)
    &&& forall|p: (Seq<char>, Seq<char>)| m.edges.contains(p) ==> m.packages.dom().contains(p.0)
}

/// Where on the host the staged file with the relative path `rel` goes.
pub open spec fn destination(rel: Seq<char>) -> Seq<char> {
    "/"@ + rel
}

/// The staging directory of a recipe below `staging_root`.
pub open spec fn stage_path(staging_root: Seq<char>, recipe: RecipeView) -> Seq<char> {
    join_path(staging_root, recipe.name + "_"@ + recipe.version)
}

/// The rows of `package_files` that an install of `name` with the staged
/// files `staged` writes, one for each staged file.
pub open spec fn staged_rows(name: Seq<char>, staged: Seq<Seq<char>>) -> Seq<(Seq<char>, Seq<char>)> {
    Seq::new(staged.len(), |i: int| (name, destination(staged[i])))
}

/// The set of those rows.
pub open spec fn file_rows(name: Seq<char>, staged: Seq<Seq<char>>) -> Set<(Seq<char>, Seq<char>)> {
    staged_rows(name, staged).to_set()
}

/// The rows of `dependencies` that an install of `name` with the dependency
/// strings `deps` writes: one for the first token of each string.
pub open spec fn dependency_rows(name: Seq<char>, deps: Seq<Seq<char>>) -> Seq<
    (Seq<char>, Seq<char>),
> {
    Seq::new(deps.len(), |i: int| (name, first_token(deps[i])))
}

/// The set of those rows.
pub open spec fn edge_rows(name: Seq<char>, deps: Seq<Seq<char>>) -> Set<(Seq<char>, Seq<char>)> {
    dependency_rows(name, deps).to_set()
}

/// The store after the install of `recipe` with the staged files `staged`:
/// the file rows and the edges are added, the package row is added or
/// replaced.
pub open spec fn install_spec(m: Metadata, recipe: RecipeView, staged: Seq<Seq<char>>) -> Metadata {
    Metadata {
        packages: m.packages.insert(recipe.name, (recipe.version, recipe.sha256_sum)),
        files: m.files.union(file_rows(recipe.name, staged)),
        edges: m.edges.union(edge_rows(recipe.name, recipe.dependencies)),
    }
}

/// The packages that were installed with a dependency on `name`.
pub open spec fn dependents(m: Metadata, name: Seq<char>) -> Set<Seq<char>> {
    lefts_of(m.edges, name)
}

/// The files that the package `name` placed on the host.
pub open spec fn owned_files(m: Metadata, name: Seq<char>) -> Set<Seq<char>> {
    rights_of(m.files, name)
}

/// The store without the package `name`, its files and its own edges.
pub open spec fn without_package(m: Metadata, name: Seq<char>) -> Metadata {
    Metadata {
        packages: m.packages.remove(name),
        files: without_left(m.files, name),
        edges: without_left(m.edges, name),
    }
}

/// The store after the removal of `name`, or `None` where a package that
/// depends on `name` forbids it.
pub open spec fn remove_spec(m: Metadata, name: Seq<char>) -> Option<Metadata> {
    if dependents(m, name) =~= Set::empty() {
        Some(without_package(m, name))
    } else {
        None
    }
}

/// The detail of the error for a removal that `blockers` forbid.
pub open spec fn blocked_detail(name: Seq<char>, blockers: Seq<Seq<char>>) -> Seq<char> {
    "Cannot remove '"@ + name + "', it is required by: "@ + join_texts(blockers, ", "@)
}

/// Whether `e` is the error for the removal of `name` from `m`: it lists
/// the packages that depend on `name`, each once.
pub open spec fn reports_blockers(m: Metadata, name: Seq<char>, e: ErrorView) -> bool {
    exists|blockers: Seq<Seq<char>>|
        blockers.no_duplicates() && blockers.to_set() == dependents(m, name) && e
            == dependency_error(#[trigger] blocked_detail(name, blockers))
}

/// The error of a copy into the staging directory that did not exit with
/// success.
pub open spec fn copy_failed() -> ErrorView {
    ErrorView { kind: ErrorKind::Io, detail: "Failed to copy artifacts to staging"@ }
}

/// One file to move from the staging directory onto the host.
#[derive(Debug)]
pub struct Placement {
    pub source: String,
    pub destination: String,
}

/// Where the build output of a recipe is staged, and the two arguments for
/// the archive copy that fills the staging directory.
#[derive(Debug)]
pub struct StagingPlan {
    pub stage_dir: String,
    pub copy_from: String,
    pub copy_to: String,
}

/// What an install places and records.
#[derive(Debug)]
pub struct InstallPlan {
    /// The files to move, in the order staged; each destination is also a
    /// row of `package_files`.
    pub placements: Vec<Placement>,
    /// The rows for `dependencies`, one per dependency string.
    pub edges: Vec<DependencyEdge>,
    /// The row for `packages`.
    pub package: InstalledPackage,
}

/// The metadata store and the staging root.
pub struct TransactionManager {
    pub staging_root: String,
    pub packages: PackageTable,
    pub files: PairSet,
    pub edges: PairSet,
}

impl View for TransactionManager {
    type V = Metadata;

    open spec fn view(&self) -> Metadata {
        Metadata { packages: self.packages@, files: self.files@, edges: self.edges@ }
    }
}

/// The names and versions that a list of rows holds.
pub open spec fn installed_view(rows: Seq<(PackageName, String)>) -> Seq<(Seq<char>, Seq<char>)> {
    Seq::new(rows.len(), |i: int| (rows[i].0@, rows[i].1@))
}

/// The table `packages` that a list of rows makes; of two rows with the
/// same name the later one stays.
pub open spec fn packages_of(rows: Seq<InstalledPackage>) -> Map<Seq<char>, (Seq<char>, Seq<char>)>
    decreases rows.len(),
{
    if rows.len() == 0 {
        Map::empty()
    } else {
        packages_of(rows.drop_last()).insert(
            rows.last().name@,
            (rows.last().version@, rows.last().hash@),
        )
    }
}

/// The pair that a file row holds.
pub open spec fn file_pair(row: InstalledFile) -> (Seq<char>, Seq<char>) {
    (row.package_name@, row.filepath@)
}

/// The pair that a dependency edge holds.
pub open spec fn edge_pair(row: DependencyEdge) -> (Seq<char>, Seq<char>) {
    (row.package@, row.depends_on@)
}

/// The pairs that a list of file rows holds, in order.
pub open spec fn file_pairs(rows: Seq<InstalledFile>) -> Seq<(Seq<char>, Seq<char>)> {
    Seq::new(rows.len(), |i: int| file_pair(rows[i]))
}

/// The pairs that a list of dependency edges holds, in order.
pub open spec fn edge_pairs(rows: Seq<DependencyEdge>) -> Seq<(Seq<char>, Seq<char>)> {
    Seq::new(rows.len(), |i: int| edge_pair(rows[i]))
}

/// The table `package_files` that a list of rows makes.
pub open spec fn files_of(rows: Seq<InstalledFile>) -> Set<(Seq<char>, Seq<char>)> {
    file_pairs(rows).to_set()
}

/// The table `dependencies` that a list of rows makes.
pub open spec fn edges_of(rows: Seq<DependencyEdge>) -> Set<(Seq<char>, Seq<char>)> {
    edge_pairs(rows).to_set()
}

/// The rows of `package_files` that the placements of a plan for the
/// package `name` stand for: one for each destination.
pub open spec fn placement_rows(name: Seq<char>, placements: Seq<Placement>) -> Seq<
    (Seq<char>, Seq<char>),
> {
    Seq::new(placements.len(), |i: int| (name, placements[i].destination@))
}

/// Whether `plan` is the plan for the install of `recipe` with the staged
/// files `staged` below `staging_root`: one placement for each staged file,
/// from the staging directory to `/` plus the relative path; one edge for
/// each dependency string, to its first token; and the package row of the
/// recipe.
pub open spec fn is_install_plan(
    plan: InstallPlan,
    staging_root: Seq<char>,
    recipe: RecipeView,
    staged: Seq<Seq<char>>,
) -> bool {
    &&& plan.placements@.len() == staged.len()
    &&& forall|i: int|
        0 <= i < staged.len() ==> (#[trigger] plan.placements@[i]).source@ == join_path(
            stage_path(staging_root, recipe),
            staged[i],
        ) && plan.placements@[i].destination@ == destination(staged[i])
    &&& plan.edges@.len() == recipe.dependencies.len()
    &&& forall|i: int|
        0 <= i < plan.edges@.len() ==> (#[trigger] plan.edges@[i]).package@ == recipe.name
            && plan.edges@[i].depends_on@ == first_token(recipe.dependencies[i])
    &&& plan.package.name@ == recipe.name
    &&& plan.package.version@ == recipe.version
    &&& plan.package.hash@ == recipe.sha256_sum
}

/// The store after the rows of `plan` are recorded: a file row for each
/// placement, the edges, and the package row, added or replaced.
pub open spec fn recorded(m: Metadata, plan: InstallPlan) -> Metadata {
    Metadata {
        packages: m.packages.insert(
            plan.package.name@,
            (plan.package.version@, plan.package.hash@),
        ),
        files: m.files.union(placement_rows(plan.package.name@, plan.placements@).to_set()),
        edges: m.edges.union(edges_of(plan.edges@)),
    }
}

/// To record the plan of an install is to install.
pub proof fn lemma_plan_records_install(
    m: Metadata,
    plan: InstallPlan,
    staging_root: Seq<char>,
    recipe: RecipeView,
    staged: Seq<Seq<char>>,
)
    requires
        is_install_plan(plan, staging_root, recipe, staged),
    ensures
        recorded(m, plan) == install_spec(m, recipe, staged),
{
    assert(placement_rows(recipe.name, plan.placements@) =~= staged_rows(recipe.name, staged));
    assert(edge_pairs(plan.edges@) =~= dependency_rows(recipe.name, recipe.dependencies));
}

/// The pairs of a list of file rows, as rows of a table.
fn file_row_list(files: &Vec<InstalledFile>) -> (r: Vec<(String, String)>)
    ensures
        pair_rows(r@) == file_pairs(files@),
{
    let mut out: Vec<(String, String)> = Vec::new();
    let mut i: usize = 0;
    while i < files.len()
        invariant
            i <= files.len(),
            out@.len() == i,
            forall|k: int| 0 <= k < i ==> pair_rows(out@)[k] == file_pair(#[trigger] files@[k]),
        decreases files.len() - i,
    {
        out.push((files[i].package_name.0.clone(), files[i].filepath.clone()));
        i = i + 1;
    }
    assert(pair_rows(out@) =~= file_pairs(files@));
    out
}

/// The pairs of a list of dependency edges, as rows of a table.
fn edge_row_list(edges: &Vec<DependencyEdge>) -> (r: Vec<(String, String)>)
    ensures
        pair_rows(r@) == edge_pairs(edges@),
{
    let mut out: Vec<(String, String)> = Vec::new();
    let mut i: usize = 0;
    while i < edges.len()
        invariant
            i <= edges.len(),
            out@.len() == i,
            forall|k: int| 0 <= k < i ==> pair_rows(out@)[k] == edge_pair(#[trigger] edges@[k]),
        decreases edges.len() - i,
    {
        out.push((edges[i].package.0.clone(), edges[i].depends_on.0.clone()));
        i = i + 1;
    }
    assert(pair_rows(out@) =~= edge_pairs(edges@));
    out
}

/// The file rows that the placements of a plan for `name` stand for.
fn placement_row_list(name: &PackageName, placements: &Vec<Placement>) -> (r: Vec<(String, String)>)
    ensures
        pair_rows(r@) == placement_rows(name@, placements@),
{
    let mut out: Vec<(String, String)> = Vec::new();
    let mut i: usize = 0;
    while i < placements.len()
        invariant
            i <= placements.len(),
            out@.len() == i,
            forall|k: int|
                0 <= k < i ==> pair_rows(out@)[k] == (name@, (#[trigger] placements@[k]).destination@),
        decreases placements.len() - i,
    {
        out.push((name.0.clone(), placements[i].destination.clone()));
        i = i + 1;
    }
    assert(pair_rows(out@) =~= placement_rows(name@, placements@));
    out
}

impl TransactionManager {
    /// A manager over the rows read from a store.
    pub fn restore(
        staging_root: String,
        packages: &Vec<InstalledPackage>,
        files: &Vec<InstalledFile>,
        edges: &Vec<DependencyEdge>,
    ) -> (r: Self)
        ensures
            r.staging_root@ == staging_root@,
            r@.packages == packages_of(packages@),
            r@.files == files_of(files@),
            r@.edges == edges_of(edges@),
    {
        let mut table = PackageTable::new();
        let mut i: usize = 0;
        assert(packages@.take(0) =~= Seq::<InstalledPackage>::empty());
        while i < packages.len()
            invariant
                i <= packages.len(),
                table@ == packages_of(packages@.take(i as int)),
            decreases packages.len() - i,
        {
            table.upsert(
                InstalledPackage {
                    name: packages[i].name.clone(),
                    version: packages[i].version.clone(),
                    hash: packages[i].hash.clone(),
                },
            );
            proof {
                let next = packages@.take(i + 1);
                assert(next.drop_last() =~= packages@.take(i as int));
                assert(next.last() == packages@[i as int]);
            }
            i = i + 1;
        }
        assert(packages@.take(packages.len() as int) =~= packages@);
        let mut file_set = PairSet::new();
        file_set.insert_all(&file_row_list(files));
        assert(file_set@ =~= files_of(files@));
        let mut edge_set = PairSet::new();
        edge_set.insert_all(&edge_row_list(edges));
        assert(edge_set@ =~= edges_of(edges@));
        TransactionManager { staging_root, packages: table, files: file_set, edges: edge_set }
    }

    /// Every row of `package_files`, each once.
    pub fn installed_files(&self) -> (r: Vec<InstalledFile>)
        ensures
            files_of(r@) == self@.files,
            file_pairs(r@).no_duplicates(),
    {
        let rows = self.files.rows();
        let ghost pairs = pair_rows(rows@);
        let mut out: Vec<InstalledFile> = Vec::new();
        let mut i: usize = 0;
        while i < rows.len()
            invariant
                pairs == pair_rows(rows@),
                i <= rows.len(),
                out@.len() == i,
                forall|k: int| 0 <= k < i ==> file_pair(#[trigger] out@[k]) == pairs[k],
            decreases rows.len() - i,
        {
            out.push(
                InstalledFile {
                    package_name: PackageName(rows[i].0.clone()),
                    filepath: rows[i].1.clone(),
                },
            );
            assert(pairs[i as int] == (rows@[i as int].0@, rows@[i as int].1@));
            i = i + 1;
        }
        assert(file_pairs(out@) =~= pairs);
        out
    }

    /// A manager with an empty store.
    pub fn new(staging_root: String) -> (r: Self)
        ensures
            r.staging_root@ == staging_root@,
            r@.packages == Map::<Seq<char>, (Seq<char>, Seq<char>)>::empty(),
            r@.files == Set::<(Seq<char>, Seq<char>)>::empty(),
            r@.edges == Set::<(Seq<char>, Seq<char>)>::empty(),
            consistent(r@),
    {
        TransactionManager {
            staging_root,
            packages: PackageTable::new(),
            files: PairSet::new(),
            edges: PairSet::new(),
        }
    }

    /// Name and version of every installed package, each package once.
    pub fn list_installed(&self) -> (r: Vec<(PackageName, String)>)
        ensures
            r@.len() == self@.packages.dom().len(),
            forall|i: int, j: int| 0 <= i < j < r@.len() ==> r@[i].0@ != r@[j].0@,
            forall|i: int|
                0 <= i < r@.len() ==> self@.packages.dom().contains((#[trigger] r@[i]).0@)
                    && self@.packages[r@[i].0@].0 == r@[i].1@,
            forall|n: Seq<char>|
                self@.packages.dom().contains(n) ==> exists|i: int|
                    0 <= i < r@.len() && (#[trigger] r@[i]).0@ == n,
    {
        let n: usize = self.packages.len();
        let rows = self.packages.rows();
        let ghost names = crate::metadata::package_names(rows@);
        proof {
            names.unique_seq_to_set();
        }
        let mut out: Vec<(PackageName, String)> = Vec::new();
        let mut i: usize = 0;
        while i < rows.len()
            invariant
                i <= rows@.len(),
                out@.len() == i,
                forall|k: int|
                    0 <= k < i ==> (#[trigger] out@[k]).0@ == rows@[k].name@ && out@[k].1@
                        == rows@[k].version@,
            decreases rows.len() - i,
        {
            out.push((rows[i].name.clone(), rows[i].version.clone()));
            i = i + 1;
        }
        proof {
            assert forall|a: int, b: int| 0 <= a < b < out@.len() implies out@[a].0@ != out@[b].0@ by {
                assert(names[a] != names[b]);
            }
            assert forall|k: int| 0 <= k < out@.len() implies self@.packages.dom().contains(
                (#[trigger] out@[k]).0@,
            ) && self@.packages[out@[k].0@].0 == out@[k].1@ by {
                assert(names[k] == rows@[k].name@);
                assert(names.to_set().contains(names[k]));
            }
            assert forall|m: Seq<char>| self@.packages.dom().contains(m) implies exists|k: int|
                0 <= k < out@.len() && (#[trigger] out@[k]).0@ == m by {
                assert(names.to_set().contains(m));
                let k = choose|k: int| 0 <= k < names.len() && names[k] == m;
                assert(out@[k].0@ == m);
            }
        }
        out
    }

    /// The staging directory for `recipe`, and the arguments of the copy
    /// that brings the tree under `artifact_path` into it.
    pub fn staging(&self, recipe: &Recipe, artifact_path: &str) -> (r: StagingPlan)
        ensures
            r.stage_dir@ == stage_path(self.staging_root@, recipe@),
            r.copy_from@ == artifact_path@ + "/."@,
            r.copy_to@ == r.stage_dir@ + "/"@,
    {
        let mut leaf = recipe.name.0.clone();
        leaf.append("_");
        leaf.append(recipe.version.as_str());
        let stage_dir = path_join(self.staging_root.as_str(), leaf.as_str());
        let mut copy_from = artifact_path.to_owned();
        copy_from.append("/.");
        let mut copy_to = stage_dir.clone();
        copy_to.append("/");
        StagingPlan { stage_dir, copy_from, copy_to }
    }

    /// The result of the copy into the staging directory, given whether the
    /// copy exited with success.
    pub fn copy_outcome(success: bool) -> (r: Result<(), RavenError>)
        ensures
            match r {
                Ok(_) => success,
                Err(e) => !success && e@ == copy_failed(),
            },
    {
        if success {
            Ok(())
        } else {
            Err(RavenError::IoError("Failed to copy artifacts to staging".to_owned()))
        }
    }

    /// Plans the install of `recipe`, whose build output was copied into
    /// its staging directory, and whose regular files lie there under the
    /// relative paths `staged`. `copied` says whether the copy exited with
    /// success; where it did not, there is no plan but the I/O error of the
    /// copy. The store does not change.
    pub fn plan_install(&self, recipe: &Recipe, copied: bool, staged: &Vec<String>) -> (r: Result<
        InstallPlan,
        RavenError,
    >)
        ensures
            match r {
                Ok(plan) => copied && is_install_plan(
                    plan,
                    self.staging_root@,
                    recipe@,
                    texts(staged@),
                ),
                Err(e) => !copied && e@ == copy_failed(),
            },
    {
        match Self::copy_outcome(copied) {
            Err(e) => {
                return Err(e);
            },
            Ok(_) => {},
        }
        let stage = self.staging(recipe, "");
        let mut placements: Vec<Placement> = Vec::new();
        let mut i: usize = 0;
        while i < staged.len()
            invariant
                stage.stage_dir@ == stage_path(self.staging_root@, recipe@),
                i <= staged.len(),
                placements@.len() == i,
                forall|k: int|
                    0 <= k < i ==> (#[trigger] placements@[k]).source@ == join_path(
                        stage.stage_dir@,
                        staged@[k]@,
                    ) && placements@[k].destination@ == destination(staged@[k]@),
            decreases staged.len() - i,
        {
            let rel = staged[i].as_str();
            let mut dest = "/".to_owned();
            dest.append(rel);
            let source = path_join(stage.stage_dir.as_str(), rel);
            placements.push(Placement { source, destination: dest });
            i = i + 1;
        }
        let mut edges: Vec<DependencyEdge> = Vec::new();
        let mut j: usize = 0;
        while j < recipe.dependencies.len()
            invariant
                j <= recipe.dependencies.len(),
                edges@.len() == j,
                forall|k: int|
                    0 <= k < j ==> (#[trigger] edges@[k]).package@ == recipe@.name
                        && edges@[k].depends_on@ == first_token(recipe@.dependencies[k]),
            decreases recipe.dependencies.len() - j,
        {
            let target = leading_token(recipe.dependencies[j].as_str());
            assert(recipe@.dependencies[j as int] == recipe.dependencies@[j as int]@);
            edges.push(DependencyEdge { package: recipe.name.clone(), depends_on: PackageName(target) });
            j = j + 1;
        }
        Ok(
            InstallPlan {
                placements,
                edges,
                package: InstalledPackage {
                    name: recipe.name.clone(),
                    version: recipe.version.clone(),
                    hash: recipe.sha256_sum.clone(),
                },
            },
        )
    }

    /// Records the rows of `plan` in the store, all of them: a file row for
    /// each placement, the edges, and the package row, added or replaced.
    pub fn record_install(&mut self, plan: &InstallPlan)
        ensures
            final(self)@ == recorded(old(self)@, *plan),
            final(self).staging_root@ == old(self).staging_root@,
    {
        self.files.insert_all(&placement_row_list(&plan.package.name, &plan.placements));
        self.edges.insert_all(&edge_row_list(&plan.edges));
        self.packages.upsert(
            InstalledPackage {
                name: plan.package.name.clone(),
                version: plan.package.version.clone(),
                hash: plan.package.hash.clone(),
            },
        );
    }

    /// Installs `recipe`, whose regular files lie in its staging directory
    /// under the relative paths `staged`; `copied` says whether the copy
    /// into the staging directory exited with success. After a failed copy
    /// the result is the I/O error of the copy and the store is unchanged.
    /// Else each file is recorded under `/` plus its relative path, an edge
    /// is recorded to the first token of each dependency string, and the
    /// package row is added or replaced; the plan lists the files to move
    /// and the rows written.
    pub fn install_package(&mut self, recipe: &Recipe, copied: bool, staged: &Vec<String>) -> (r:
        Result<InstallPlan, RavenError>)
        ensures
            final(self).staging_root@ == old(self).staging_root@,
            consistent(old(self)@) ==> consistent(final(self)@),
            match r {
                Ok(plan) => {
                    &&& copied
                    &&& final(self)@ == install_spec(old(self)@, recipe@, texts(staged@))
                    &&& is_install_plan(plan, old(self).staging_root@, recipe@, texts(staged@))
                },
                Err(e) => {
                    &&& !copied
                    &&& final(self)@ == old(self)@
                    &&& e@ == copy_failed()
                },
            },
    {
        let ghost before = self@;
        let plan = match self.plan_install(recipe, copied, staged) {
            Err(e) => {
                return Err(e);
            },
            Ok(plan) => plan,
        };
        self.record_install(&plan);
        proof {
            lemma_plan_records_install(
                before,
                plan,
                self.staging_root@,
                recipe@,
                texts(staged@),
            );
            if consistent(before) {
                install_keeps_consistent(before, recipe@, texts(staged@));
            }
        }
        Ok(plan)
    }

    /// Plans the removal of the package `name`: the files to delete from
    /// the host, each once. Where another package was installed with a
    /// dependency on `name`, the removal is refused with a
    /// `DependencyError` that lists those packages. The store does not
    /// change.
    pub fn plan_removal(&self, name: &PackageName) -> (r: Result<Vec<String>, RavenError>)
        ensures
            match r {
                Ok(paths) => {
                    &&& remove_spec(self@, name@) is Some
                    &&& texts(paths@).no_duplicates()
                    &&& texts(paths@).to_set() == owned_files(self@, name@)
                },
                Err(e) => {
                    &&& remove_spec(self@, name@) is None
                    &&& reports_blockers(self@, name@, e@)
                },
            },
    {
        let blockers = self.edges.select_left(name.0.as_str());
        if blockers.len() > 0 {
            let mut detail = "Cannot remove '".to_owned();
            detail.append(name.0.as_str());
            detail.append("', it is required by: ");
            let listed = join_strings(&blockers, ", ");
            detail.append(listed.as_str());
            proof {
                let seen = texts(blockers@);
                assert(seen.to_set().contains(seen[0]));
                assert(detail@ == blocked_detail(name@, seen));
            }
            return Err(RavenError::DependencyError(detail));
        }
        proof {
            let seen = texts(blockers@);
            assert(seen.to_set() =~= Set::<Seq<char>>::empty()) by {
                assert forall|x: Seq<char>| !seen.to_set().contains(x) by {
                    if seen.contains(x) {
                        let k = choose|k: int| 0 <= k < seen.len() && seen[k] == x;
                    }
                }
            }
        }
        Ok(self.files.select_right(name.0.as_str()))
    }

    /// Removes the package `name`: its file rows, its own edges and its
    /// package row. Returns the files to delete from the host, each once.
    /// Where another package was installed with a dependency on `name`, the
    /// removal is refused with a `DependencyError` that lists those
    /// packages, and nothing changes.
    pub fn remove_package(&mut self, name: &PackageName) -> (r: Result<Vec<String>, RavenError>)
        ensures
            final(self).staging_root@ == old(self).staging_root@,
            consistent(old(self)@) ==> consistent(final(self)@),
            match r {
                Ok(paths) => {
                    &&& remove_spec(old(self)@, name@) == Some(final(self)@)
                    &&& texts(paths@).no_duplicates()
                    &&& texts(paths@).to_set() == owned_files(old(self)@, name@)
                },
                Err(e) => {
                    &&& remove_spec(old(self)@, name@) is None
                    &&& final(self)@ == old(self)@
                    &&& reports_blockers(old(self)@, name@, e@)
                },
            },
    {
        let ghost before = self@;
        let paths = match self.plan_removal(name) {
            Err(e) => {
                return Err(e);
            },
            Ok(paths) => paths,
        };
        self.files.remove_left(name.0.as_str());
        self.edges.remove_left(name.0.as_str());
        self.packages.remove(name.0.as_str());
        proof {
            if consistent(before) {
                remove_keeps_consistent(before, name@);
            }
        }
        Ok(paths)
    }
}

/// Every row that an install writes to `package_files` and `dependencies`
/// bears the name of the package installed.
pub proof fn lemma_rows_named(name: Seq<char>, staged: Seq<Seq<char>>, deps: Seq<Seq<char>>)
    ensures
        forall|p: (Seq<char>, Seq<char>)| file_rows(name, staged).contains(p) ==> p.0 == name,
        forall|p: (Seq<char>, Seq<char>)| edge_rows(name, deps).contains(p) ==> p.0 == name,
        forall|i: int|
            0 <= i < staged.len() ==> file_rows(name, staged).contains(
                (name, destination(#[trigger] staged[i])),
            ),
        forall|i: int|
            0 <= i < deps.len() ==> edge_rows(name, deps).contains(
                (name, first_token(#[trigger] deps[i])),
            ),
{
    let files = staged_rows(name, staged);
    let edges = dependency_rows(name, deps);
    assert forall|p: (Seq<char>, Seq<char>)| files.to_set().contains(p) implies p.0 == name by {
        let k = choose|k: int| 0 <= k < files.len() && files[k] == p;
        assert(files[k] == p);
    }
    assert forall|p: (Seq<char>, Seq<char>)| edges.to_set().contains(p) implies p.0 == name by {
        let k = choose|k: int| 0 <= k < edges.len() && edges[k] == p;
        assert(edges[k] == p);
    }
    assert forall|i: int| 0 <= i < staged.len() implies files.to_set().contains(
        (name, destination(#[trigger] staged[i])),
    ) by {
        assert(files[i] == (name, destination(staged[i])));
    }
    assert forall|i: int| 0 <= i < deps.len() implies edges.to_set().contains(
        (name, first_token(#[trigger] deps[i])),
    ) by {
        assert(edges[i] == (name, first_token(deps[i])));
    }
}

/// An install keeps every file and every edge with an installed package.
pub proof fn install_keeps_consistent(m: Metadata, recipe: RecipeView, staged: Seq<Seq<char>>)
    requires
        consistent(m),
    ensures
        consistent(install_spec(m, recipe, staged)),
{
    lemma_rows_named(recipe.name, staged, recipe.dependencies);
}

/// A removal keeps every file and every edge with an installed package.
pub proof fn remove_keeps_consistent(m: Metadata, name: Seq<char>)
    requires
        consistent(m),
    ensures
        consistent(without_package(m, name)),
{
}

/// An install followed by the removal of the same package leaves the
/// store as it was, and the removal deletes every file that the install
/// placed. This holds where the package was not installed before, does not
/// list itself as a dependency, and no other package was installed with a
/// dependency on it.
pub proof fn install_then_remove_restores(m: Metadata, recipe: RecipeView, staged: Seq<Seq<char>>)
    requires
        consistent(m),
        !m.packages.dom().contains(recipe.name),
        forall|p: Seq<char>| !m.edges.contains((p, recipe.name)),
        forall|i: int|
            0 <= i < recipe.dependencies.len() ==> first_token(#[trigger] recipe.dependencies[i])
                != recipe.name,
    ensures
        remove_spec(install_spec(m, recipe, staged), recipe.name) == Some(m),
        forall|i: int|
            0 <= i < staged.len() ==> owned_files(
                install_spec(m, recipe, staged),
                recipe.name,
            ).contains(destination(#[trigger] staged[i])),
{
    lemma_rows_named(recipe.name, staged, recipe.dependencies);
    let installed = install_spec(m, recipe, staged);
    assert forall|p: Seq<char>| !installed.edges.contains((p, recipe.name)) by {
        let deps = dependency_rows(recipe.name, recipe.dependencies);
        if deps.to_set().contains((p, recipe.name)) {
            let k = choose|k: int| 0 <= k < deps.len() && deps[k] == (p, recipe.name);
            assert(first_token(recipe.dependencies[k]) == recipe.name);
        }
    }
    assert(dependents(installed, recipe.name) =~= Set::<Seq<char>>::empty());
    let back = without_package(installed, recipe.name);
    assert(back.packages =~= m.packages);
    assert(back.files =~= m.files);
    assert(back.edges =~= m.edges);
    assert forall|i: int| 0 <= i < staged.len() implies owned_files(installed, recipe.name).contains(
        destination(#[trigger] staged[i]),
    ) by {
        assert(file_rows(recipe.name, staged).contains((recipe.name, destination(staged[i]))));
    }
}

/// A package that another was installed with a dependency on cannot be
/// removed.
pub proof fn remove_refused_while_needed(m: Metadata, package: Seq<char>, needed: Seq<char>)
    requires
        m.edges.contains((package, needed)),
    ensures
        remove_spec(m, needed) is None,
{
    assert(dependents(m, needed).contains(package));
}

/// After the install of a recipe, none of the packages that its dependency
/// strings name can be removed.
pub proof fn remove_refused_after_install(
    m: Metadata,
    recipe: RecipeView,
    staged: Seq<Seq<char>>,
    i: int,
)
    requires
        0 <= i < recipe.dependencies.len(),
    ensures
        remove_spec(install_spec(m, recipe, staged), first_token(recipe.dependencies[i])) is None,
{
    let needed = first_token(recipe.dependencies[i]);
    lemma_rows_named(recipe.name, staged, recipe.dependencies);
    assert(edge_rows(recipe.name, recipe.dependencies).contains((recipe.name, needed)));
    remove_refused_while_needed(install_spec(m, recipe, staged), recipe.name, needed);
}

/// The install of a recipe a second time, with the same staged files,
/// changes nothing.
pub proof fn install_twice_is_install_once(m: Metadata, recipe: RecipeView, staged: Seq<Seq<char>>)
    ensures
        install_spec(install_spec(m, recipe, staged), recipe, staged) == install_spec(
            m,
            recipe,
            staged,
        ),
{
    let once = install_spec(m, recipe, staged);
    let twice = install_spec(once, recipe, staged);
    assert(twice.packages =~= once.packages);
    assert(twice.files =~= once.files);
    assert(twice.edges =~= once.edges);
}

/// The store without any row.
pub open spec fn empty_store() -> Metadata {
    Metadata { packages: Map::empty(), files: Set::empty(), edges: Set::empty() }
}

/// An install replaces the row of its package and touches no other. After
/// the install of a recipe, `packages` holds one row for its name, with
/// the version and the hash of the recipe, whether or not the package was
/// installed before; every other row is as it was.
pub proof fn install_replaces_row(m: Metadata, recipe: RecipeView, staged: Seq<Seq<char>>)
    ensures
        install_spec(m, recipe, staged).packages.dom() == m.packages.dom().insert(recipe.name),
        install_spec(m, recipe, staged).packages[recipe.name] == (
            recipe.version,
            recipe.sha256_sum,
        ),
        forall|n: Seq<char>|
            n != recipe.name && m.packages.dom().contains(n) ==> #[trigger] install_spec(
                m,
                recipe,
                staged,
            ).packages[n] == m.packages[n],
{
}

/// The installs of a chain into an empty store. Where `a` lists `b` alone,
/// `b` lists `c` alone and `c` lists nothing, the installs of `c`, `b` and
/// `a`, in this order, leave three rows in `packages`, each with the
/// version and hash of its recipe, and the two edges from `a` to `b` and
/// from `b` to `c`.
pub proof fn chain_installs_three(
    a: RecipeView,
    b: RecipeView,
    c: RecipeView,
    staged_a: Seq<Seq<char>>,
    staged_b: Seq<Seq<char>>,
    staged_c: Seq<Seq<char>>,
)
    requires
        a.name != b.name && b.name != c.name && a.name != c.name,
        a.dependencies.len() == 1,
        first_token(a.dependencies[0]) == b.name,
        b.dependencies.len() == 1,
        first_token(b.dependencies[0]) == c.name,
        c.dependencies.len() == 0,
    ensures
        ({
            let m = install_spec(
                install_spec(install_spec(empty_store(), c, staged_c), b, staged_b),
                a,
                staged_a,
            );
            &&& m.packages.dom() == set![a.name, b.name, c.name]
            &&& m.packages.dom().len() == 3
            &&& m.packages[a.name] == (a.version, a.sha256_sum)
            &&& m.packages[b.name] == (b.version, b.sha256_sum)
            &&& m.packages[c.name] == (c.version, c.sha256_sum)
            &&& m.edges == set![(a.name, b.name), (b.name, c.name)]
        }),
{
    let m = install_spec(
        install_spec(install_spec(empty_store(), c, staged_c), b, staged_b),
        a,
        staged_a,
    );
    lemma_rows_named(a.name, staged_a, a.dependencies);
    lemma_rows_named(b.name, staged_b, b.dependencies);
    lemma_rows_named(c.name, staged_c, c.dependencies);
    let rows_a = dependency_rows(a.name, a.dependencies);
    let rows_b = dependency_rows(b.name, b.dependencies);
    let rows_c = dependency_rows(c.name, c.dependencies);
    assert(rows_a =~= seq![(a.name, b.name)]);
    assert(rows_b =~= seq![(b.name, c.name)]);
    assert(rows_c =~= Seq::<(Seq<char>, Seq<char>)>::empty());
    assert forall|p: (Seq<char>, Seq<char>)| m.edges.contains(p) <==> set![
        (a.name, b.name),
        (b.name, c.name),
    ].contains(p) by {
        if rows_a.to_set().contains(p) {
            let k = choose|k: int| 0 <= k < rows_a.len() && rows_a[k] == p;
            assert(rows_a[k] == p);
        }
        if rows_b.to_set().contains(p) {
            let k = choose|k: int| 0 <= k < rows_b.len() && rows_b[k] == p;
            assert(rows_b[k] == p);
        }
        if rows_c.to_set().contains(p) {
            let k = choose|k: int| 0 <= k < rows_c.len() && rows_c[k] == p;
        }
        if p == (a.name, b.name) {
            assert(rows_a[0] == p);
        }
        if p == (b.name, c.name) {
            assert(rows_b[0] == p);
        }
    }
    assert(m.edges =~= set![(a.name, b.name), (b.name, c.name)]);
    assert(m.packages.dom() =~= set![a.name, b.name, c.name]);
    let names = Set::<Seq<char>>::empty().insert(a.name).insert(b.name).insert(c.name);
    assert(names =~= set![a.name, b.name, c.name]);
    assert(names.len() == 3);
}

} // verus!
