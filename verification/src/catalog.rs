//! The frameworks that other mods build on, and where they come from.
use vstd::prelude::*;

use crate::digest::sha256_hex;
use crate::models::ModRelease;
use crate::order::{ascending, text_lt};
use crate::outside::{hex_of, sha256_of};
use crate::path::{join, join_path, option_view};
use crate::paths::AppPaths;
use crate::text::{
    add_if, begins_with, chars_of, finishes_with, has_piece, if_so, law_lower_is_by_characters,
    lower, occurs, same_ignoring_case, same_text, stands_at, text_between, to_lower, trim_start,
    trimmed_start, views, CharClass,
};

verus! {

/// A framework.
#[derive(Debug)]
pub struct FrameworkDescriptor {
    pub id: &'static str,
    pub name: &'static str,
    pub repository: &'static str,
    pub requires: Vec<&'static str>,
    pub signatures: Vec<&'static str>,
}

/// A framework, as sequences of characters.
pub struct Framework {
    pub id: Seq<char>,
    pub name: Seq<char>,
    pub repository: Seq<char>,
    pub requires: Seq<Seq<char>>,
    pub signatures: Seq<Seq<char>>,
}

/// A list of literals, as sequences of characters.
pub open spec fn literal_views(list: Seq<&'static str>) -> Seq<Seq<char>> {
    list.map_values(|text: &'static str| text@)
}

impl View for FrameworkDescriptor {
    type V = Framework;

    open spec fn view(&self) -> Framework {
        Framework {
            id: self.id@,
            name: self.name@,
            repository: self.repository@,
            requires: literal_views(self.requires@),
            signatures: literal_views(self.signatures@),
        }
    }
}

/// The frameworks that are known.
pub open spec fn catalog() -> Seq<Framework> {
    seq![
        Framework {
            id: "cyber-engine-tweaks"@,
            name: "Cyber Engine Tweaks"@,
            repository: "maximegmd/CyberEngineTweaks"@,
            requires: Seq::empty(),
            signatures: seq!["bin/x64/version.dll"@, "bin/x64/plugins/cyber_engine_tweaks"@],
        },
        Framework {
            id: "redscript"@,
            name: "redscript"@,
            repository: "jac3km4/redscript"@,
            requires: Seq::empty(),
            signatures: seq!["engine/tools/scc.exe"@, "engine/config/base/scripts.ini"@],
        },
        Framework {
            id: "red4ext"@,
            name: "RED4ext"@,
            repository: "wopss/RED4ext"@,
            requires: Seq::empty(),
            signatures: seq!["red4ext/RED4ext.dll"@, "bin/x64/winmm.dll"@],
        },
        Framework {
            id: "archivexl"@,
            name: "ArchiveXL"@,
            repository: "psiberx/cp2077-archive-xl"@,
            requires: seq!["red4ext"@],
            signatures: seq!["red4ext/plugins/ArchiveXL"@],
        },
        Framework {
            id: "tweakxl"@,
            name: "TweakXL"@,
            repository: "psiberx/cp2077-tweak-xl"@,
            requires: seq!["red4ext"@],
            signatures: seq!["red4ext/plugins/TweakXL"@],
        },
        Framework {
            id: "codeware"@,
            name: "Codeware"@,
            repository: "psiberx/cp2077-codeware"@,
            requires: seq!["red4ext"@],
            signatures: seq!["red4ext/plugins/Codeware"@],
        },
    ]
}

/// A list of frameworks, as sequences of characters.
pub open spec fn framework_views(list: Seq<FrameworkDescriptor>) -> Seq<Framework> {
    list.map_values(|framework: FrameworkDescriptor| framework@)
}

fn describe(
    id: &'static str,
    name: &'static str,
    repository: &'static str,
    needs: Vec<&'static str>,
    signatures: Vec<&'static str>,
) -> (r: FrameworkDescriptor)
    ensures
        r@ == (Framework {
            id: id@,
            name: name@,
            repository: repository@,
            requires: literal_views(needs@),
            signatures: literal_views(signatures@),
        }),
{
    FrameworkDescriptor { id, name, repository, requires: needs, signatures }
}

fn literals(first: &'static str, second: &'static str) -> (r: Vec<&'static str>)
    ensures
        literal_views(r@) == seq![first@, second@],
{
    let r = vec![first, second];
    assert(literal_views(r@) =~= seq![first@, second@]);
    r
}

fn literal(only: &'static str) -> (r: Vec<&'static str>)
    ensures
        literal_views(r@) == seq![only@],
{
    let r = vec![only];
    assert(literal_views(r@) =~= seq![only@]);
    r
}

fn no_literals() -> (r: Vec<&'static str>)
    ensures
        literal_views(r@) == Seq::<Seq<char>>::empty(),
{
    let r: Vec<&'static str> = Vec::new();
    assert(literal_views(r@) =~= Seq::<Seq<char>>::empty());
    r
}

/// The frameworks that are known.
pub fn frameworks() -> (r: Vec<FrameworkDescriptor>)
    ensures
        framework_views(r@) == catalog(),
{
    let mut r: Vec<FrameworkDescriptor> = Vec::new();
    r.push(
        describe(
            "cyber-engine-tweaks",
            "Cyber Engine Tweaks",
            "maximegmd/CyberEngineTweaks",
            no_literals(),
            literals("bin/x64/version.dll", "bin/x64/plugins/cyber_engine_tweaks"),
        ),
    );
    r.push(
        describe(
            "redscript",
            "redscript",
            "jac3km4/redscript",
            no_literals(),
            literals("engine/tools/scc.exe", "engine/config/base/scripts.ini"),
        ),
    );
    r.push(
        describe(
            "red4ext",
            "RED4ext",
            "wopss/RED4ext",
            no_literals(),
            literals("red4ext/RED4ext.dll", "bin/x64/winmm.dll"),
        ),
    );
    r.push(
        describe(
            "archivexl",
            "ArchiveXL",
            "psiberx/cp2077-archive-xl",
            literal("red4ext"),
            literal("red4ext/plugins/ArchiveXL"),
        ),
    );
    r.push(
        describe(
            "tweakxl",
            "TweakXL",
            "psiberx/cp2077-tweak-xl",
            literal("red4ext"),
            literal("red4ext/plugins/TweakXL"),
        ),
    );
    r.push(
        describe(
            "codeware",
            "Codeware",
            "psiberx/cp2077-codeware",
            literal("red4ext"),
            literal("red4ext/plugins/Codeware"),
        ),
    );
    assert(framework_views(r@) =~= catalog());
    r
}

/// Whether a release is a copy of a framework: by its id, or by its name in any
/// case.
pub open spec fn is_copy(release: ModRelease, framework: Framework) -> bool {
    release.id@ == framework.id || lower(release.name@) == lower(framework.name)
}

/// Whether a release is a copy of a framework.
pub fn copy_of(release: &ModRelease, framework: &FrameworkDescriptor) -> (r: bool)
    ensures
        r == is_copy(*release, framework@),
{
    same_text(&release.id, framework.id) || same_ignoring_case(&release.name, framework.name)
}

/// The releases that are copies of a framework, in their order.
pub fn matching_releases<'a>(mods: &'a [ModRelease], framework: &FrameworkDescriptor) -> (r: Vec<
    &'a ModRelease,
>)
    ensures
        r@.map_values(|release: &'a ModRelease| *release) == mods@.filter(
            |release: ModRelease| is_copy(release, framework@),
        ),
{
    let mut r: Vec<&'a ModRelease> = Vec::new();
    let ghost keep = |release: ModRelease| is_copy(release, framework@);
    let ghost plain = |release: &'a ModRelease| *release;
    let mut i: usize = 0;
    assert(r@.map_values(plain) =~= mods@.take(0).filter(keep)) by {
        reveal(Seq::filter);
    }
    while i < mods.len()
        invariant
            i <= mods@.len(),
            keep == (|release: ModRelease| is_copy(release, framework@)),
            plain == (|release: &'a ModRelease| *release),
            r@.map_values(plain) == mods@.take(i as int).filter(keep),
        decreases mods@.len() - i,
    {
        let ghost had = r@;
        let ghost now = mods@.take(i + 1);
        assert(now.drop_last() =~= mods@.take(i as int));
        if copy_of(&mods[i], framework) {
            r.push(&mods[i]);
            assert(r@.map_values(plain) =~= had.map_values(plain).push(mods@[i as int]));
        }
        assert(r@.map_values(plain) =~= now.filter(keep)) by {
            reveal(Seq::filter);
        }
        i += 1;
    }
    assert(mods@.take(i as int) =~= mods@);
    r
}

/// Whether some release is a copy of a framework.
pub open spec fn installed(mods: Seq<ModRelease>, framework: Framework) -> bool {
    exists|i: int| 0 <= i < mods.len() && is_copy(#[trigger] mods[i], framework)
}

/// Whether some release is a copy of a framework.
pub fn is_installed(mods: &[ModRelease], framework: &FrameworkDescriptor) -> (r: bool)
    ensures
        r == installed(mods@, framework@),
{
    let mut i: usize = 0;
    while i < mods.len()
        invariant
            i <= mods@.len(),
            forall|j: int| 0 <= j < i ==> !is_copy(#[trigger] mods@[j], framework@),
        decreases mods@.len() - i,
    {
        if copy_of(&mods[i], framework) {
            return true;
        }
        i += 1;
    }
    false
}

/// Where the first framework with an id stands in the catalog.
pub open spec fn known_at(id: Seq<char>, i: int) -> bool {
    &&& 0 <= i < catalog().len()
    &&& catalog()[i].id == id
    &&& forall|j: int| 0 <= j < i ==> (#[trigger] catalog()[j]).id != id
}

/// The framework with an id.
pub open spec fn known(id: Seq<char>) -> Option<Framework> {
    if exists|i: int| known_at(id, i) {
        Some(catalog()[choose|i: int| known_at(id, i)])
    } else {
        None
    }
}

/// The framework with an id, as it stands in the catalog.
pub fn find_framework(id: &str) -> (r: Option<FrameworkDescriptor>)
    ensures
        match r {
            Some(framework) => known(id@) == Some(framework@),
            None => known(id@) is None,
        },
{
    let mut all = frameworks();
    let ghost views = framework_views(all@);
    let mut i: usize = 0;
    while i < all.len()
        invariant
            i <= all@.len(),
            framework_views(all@) == views,
            views == catalog(),
            forall|j: int| 0 <= j < i ==> (#[trigger] catalog()[j]).id != id@,
        decreases all@.len() - i,
    {
        assert(views[i as int] == all@[i as int]@);
        if same_text(all[i].id, id) {
            assert(known_at(id@, i as int));
            proof {
                let k = choose|k: int| known_at(id@, k);
                assert(k == i);
            }
            return Some(all.remove(i));
        }
        i += 1;
    }
    assert forall|k: int| !known_at(id@, k) by {
        if known_at(id@, k) {
            assert(catalog()[k].id != id@);
        }
    }
    None
}

/// The name of the framework with an id, or else the id.
pub open spec fn label_of(id: Seq<char>) -> Seq<char> {
    match known(id) {
        Some(framework) => framework.name,
        None => id,
    }
}

/// The name of the framework with an id, or else the id.
pub fn requirement_label(requires_id: &str) -> (r: String)
    ensures
        r@ == label_of(requires_id@),
{
    match find_framework(requires_id) {
        Some(framework) => framework.name.to_owned(),
        None => requires_id.to_owned(),
    }
}

/// What each framework requires, in the order of their ids.
pub open spec fn requirement_table() -> Seq<(Seq<char>, Seq<Seq<char>>)> {
    seq![
        ("archivexl"@, seq!["red4ext"@]),
        ("codeware"@, seq!["red4ext"@]),
        ("cyber-engine-tweaks"@, Seq::empty()),
        ("red4ext"@, Seq::empty()),
        ("redscript"@, Seq::empty()),
        ("tweakxl"@, seq!["red4ext"@]),
    ]
}

/// A list of ids and what they require, as sequences of characters.
pub open spec fn requirement_views(list: Seq<(String, Vec<String>)>) -> Seq<
    (Seq<char>, Seq<Seq<char>>),
> {
    list.map_values(|entry: (String, Vec<String>)| (entry.0@, views(entry.1@)))
}

fn requirement(id: &str, on_red4ext: bool) -> (r: (String, Vec<String>))
    ensures
        r.0@ == id@,
        views(r.1@) == if on_red4ext {
            seq!["red4ext"@]
        } else {
            Seq::empty()
        },
{
    let mut list: Vec<String> = Vec::new();
    if on_red4ext {
        list.push("red4ext".to_owned());
        assert(views(list@) =~= seq!["red4ext"@]);
    } else {
        assert(views(list@) =~= Seq::empty());
    }
    (id.to_owned(), list)
}

/// What each framework requires, in the order of their ids.
pub fn dependencies() -> (r: Vec<(String, Vec<String>)>)
    ensures
        requirement_views(r@) == requirement_table(),
{
    let mut r: Vec<(String, Vec<String>)> = Vec::new();
    r.push(requirement("archivexl", true));
    r.push(requirement("codeware", true));
    r.push(requirement("cyber-engine-tweaks", false));
    r.push(requirement("red4ext", false));
    r.push(requirement("redscript", false));
    r.push(requirement("tweakxl", true));
    assert(requirement_views(r@) =~= requirement_table());
    r
}

/// The table of requirements lists each framework of the catalog once, with what
/// it requires, and nothing else.
pub proof fn law_requirements_match_the_catalog()
    ensures
        requirement_table().len() == catalog().len(),
        forall|i: int|
            0 <= i < catalog().len() ==> requirement_table().contains(
                ((#[trigger] catalog()[i]).id, catalog()[i].requires),
            ),
        ascending(requirement_table().map_values(|entry: (Seq<char>, Seq<Seq<char>>)| entry.0)),
{
    let table = requirement_table();
    assert forall|i: int| 0 <= i < catalog().len() implies table.contains(
        ((#[trigger] catalog()[i]).id, catalog()[i].requires),
    ) by {
        let at = if i == 0 {
            2int
        } else if i == 1 {
            4
        } else if i == 2 {
            3
        } else if i == 3 {
            0
        } else if i == 4 {
            5
        } else {
            1
        };
        assert(table[at] == (catalog()[i].id, catalog()[i].requires));
    }
    let ids = table.map_values(|entry: (Seq<char>, Seq<Seq<char>>)| entry.0);
    lemma_ids_ascend();
    lemma_chain(ids);
}

proof fn lemma_ids_ascend()
    ensures
        text_lt("archivexl"@, "codeware"@),
        text_lt("codeware"@, "cyber-engine-tweaks"@),
        text_lt("cyber-engine-tweaks"@, "red4ext"@),
        text_lt("red4ext"@, "redscript"@),
        text_lt("redscript"@, "tweakxl"@),
{
    reveal_strlit("archivexl");
    reveal_strlit("codeware");
    reveal_strlit("cyber-engine-tweaks");
    reveal_strlit("red4ext");
    reveal_strlit("redscript");
    reveal_strlit("tweakxl");
    reveal_with_fuel(crate::order::lex_lt, 5);
}

proof fn lemma_chain(ids: Seq<Seq<char>>)
    requires
        forall|i: int| 0 <= i < ids.len() - 1 ==> text_lt(#[trigger] ids[i], ids[i + 1]),
    ensures
        ascending(ids),
    decreases ids.len(),
{
    if ids.len() > 1 {
        let front = ids.drop_last();
        lemma_chain(front);
        crate::order::lemma_text_order();
        let lt = |a: Seq<char>, b: Seq<char>| text_lt(a, b);
        let n = ids.len() - 1;
        assert(text_lt(ids[n - 1], ids[n - 1 + 1]));
        assert forall|i: int, j: int| 0 <= i < j < ids.len() implies text_lt(
            #[trigger] ids[i],
            #[trigger] ids[j],
        ) by {
            if j < n {
                assert(text_lt(front[i], front[j]));
            } else if i < n - 1 {
                assert(text_lt(front[i], front[n - 1]));
                assert(lt(ids[i], ids[n - 1]) && lt(ids[n - 1], ids[n]));
            }
        }
    }
}

/// Whether some path ends with `suffix`, in any case.
pub open spec fn some_ends(paths: Seq<String>, suffix: Seq<char>) -> bool {
    exists|i: int| 0 <= i < paths.len() && suffix.is_suffix_of(lower((#[trigger] paths[i])@))
}

/// Whether some path begins with `prefix`, in any case.
pub open spec fn some_begins(paths: Seq<String>, prefix: Seq<char>) -> bool {
    exists|i: int| 0 <= i < paths.len() && prefix.is_prefix_of(lower((#[trigger] paths[i])@))
}

fn any_ends(paths: &[String], suffix: &str) -> (r: bool)
    ensures
        r == some_ends(paths@, suffix@),
{
    let mut i: usize = 0;
    while i < paths.len()
        invariant
            i <= paths@.len(),
            forall|j: int| 0 <= j < i ==> !suffix@.is_suffix_of(lower((#[trigger] paths@[j])@)),
        decreases paths@.len() - i,
    {
        if finishes_with(&to_lower(&paths[i]), suffix) {
            return true;
        }
        i += 1;
    }
    false
}

fn any_begins(paths: &[String], prefix: &str) -> (r: bool)
    ensures
        r == some_begins(paths@, prefix@),
{
    let mut i: usize = 0;
    while i < paths.len()
        invariant
            i <= paths@.len(),
            forall|j: int| 0 <= j < i ==> !prefix@.is_prefix_of(lower((#[trigger] paths@[j])@)),
        decreases paths@.len() - i,
    {
        if begins_with(&to_lower(&paths[i]), prefix) {
            return true;
        }
        i += 1;
    }
    false
}

/// The frameworks that files need, told by their extensions and places.
pub open spec fn inferred(paths: Seq<String>) -> Seq<Seq<char>> {
    if_so(some_ends(paths, ".xl"@), "archivexl"@) + if_so(
        some_ends(paths, ".lua"@) && some_begins(paths, "bin/x64/plugins/cyber_engine_tweaks/"@),
        "cyber-engine-tweaks"@,
    ) + if_so(
        some_ends(paths, ".dll"@) && some_begins(paths, "red4ext/plugins/"@),
        "red4ext"@,
    ) + if_so(some_ends(paths, ".reds"@) && some_begins(paths, "r6/scripts/"@), "redscript"@) + if_so(
        some_ends(paths, ".tweak"@) || (some_ends(paths, ".yaml"@) && some_begins(
            paths,
            "r6/tweaks/"@,
        )),
        "tweakxl"@,
    )
}

/// The frameworks that files need, in the order of their ids and each once.
pub fn infer_requirements(paths: &[String]) -> (r: Vec<String>)
    ensures
        views(r@) == inferred(paths@),
        ascending(views(r@)),
{
    let mut r: Vec<String> = Vec::new();
    add_if(&mut r, any_ends(paths, ".xl"), "archivexl");
    add_if(
        &mut r,
        any_ends(paths, ".lua") && any_begins(paths, "bin/x64/plugins/cyber_engine_tweaks/"),
        "cyber-engine-tweaks",
    );
    add_if(&mut r, any_ends(paths, ".dll") && any_begins(paths, "red4ext/plugins/"), "red4ext");
    add_if(&mut r, any_ends(paths, ".reds") && any_begins(paths, "r6/scripts/"), "redscript");
    add_if(
        &mut r,
        any_ends(paths, ".tweak") || (any_ends(paths, ".yaml") && any_begins(paths, "r6/tweaks/")),
        "tweakxl",
    );
    assert(views(r@) =~= inferred(paths@));
    proof {
        lemma_inferred_ascends(paths@);
    }
    r
}

proof fn lemma_inferred_ascends(paths: Seq<String>)
    ensures
        ascending(inferred(paths)),
{
    lemma_ids_ascend();
    crate::order::lemma_text_order();
    let lt = |a: Seq<char>, b: Seq<char>| text_lt(a, b);
    assert(lt("archivexl"@, "codeware"@) && lt("codeware"@, "cyber-engine-tweaks"@));
    assert(lt("archivexl"@, "cyber-engine-tweaks"@));
    assert(lt("cyber-engine-tweaks"@, "red4ext"@) && lt("red4ext"@, "redscript"@));
    assert(lt("redscript"@, "tweakxl"@));
    assert(lt("archivexl"@, "red4ext"@));
    assert(lt("archivexl"@, "redscript"@));
    assert(lt("archivexl"@, "tweakxl"@));
    assert(lt("cyber-engine-tweaks"@, "redscript"@));
    assert(lt("cyber-engine-tweaks"@, "tweakxl"@));
    assert(lt("red4ext"@, "tweakxl"@));
}

/// A framework that was downloaded.
#[derive(Debug)]
pub struct DownloadedFramework {
    pub path: String,
    pub version: String,
}

/// A file of a published release.
#[derive(Debug)]
pub struct ReleaseAsset {
    pub name: String,
    pub download_url: String,
    pub digest: Option<String>,
}

/// Whether an asset is an archive of the framework itself.
pub open spec fn installable(name: Seq<char>) -> bool {
    let small = lower(name);
    &&& ".zip"@.is_suffix_of(small)
    &&& !occurs(small, "source"@)
    &&& !occurs(small, "debug"@)
    &&& !occurs(small, "symbols"@)
    &&& !occurs(small, "pdb"@)
    &&& !occurs(small, "dev"@)
}

/// Whether an asset is the one to take where a release has several archives.
pub open spec fn preferred(framework_id: Seq<char>, name: Seq<char>) -> bool {
    let small = lower(name);
    if framework_id == "redscript"@ {
        occurs(small, "redscript-mod"@)
    } else if framework_id == "cyber-engine-tweaks"@ {
        occurs(small, "cet"@) || occurs(small, "cyber"@)
    } else {
        true
    }
}

fn is_installable(name: &str) -> (r: bool)
    ensures
        r == installable(name@),
{
    let small = to_lower(name);
    finishes_with(&small, ".zip") && !has_piece(&small, "source") && !has_piece(&small, "debug")
        && !has_piece(&small, "symbols") && !has_piece(&small, "pdb") && !has_piece(&small, "dev")
}

fn is_preferred(framework_id: &str, name: &str) -> (r: bool)
    ensures
        r == preferred(framework_id@, name@),
{
    let small = to_lower(name);
    if same_text(framework_id, "redscript") {
        has_piece(&small, "redscript-mod")
    } else if same_text(framework_id, "cyber-engine-tweaks") {
        has_piece(&small, "cet") || has_piece(&small, "cyber")
    } else {
        true
    }
}

/// Whether the asset at `i` is the one to take: the first installable one that is
/// preferred, or the first installable one where none is preferred.
pub open spec fn chosen(framework_id: Seq<char>, assets: Seq<ReleaseAsset>, i: int) -> bool {
    &&& 0 <= i < assets.len()
    &&& installable(assets[i].name@)
    &&& forall|j: int|
        0 <= j < assets.len() && j != i && installable((#[trigger] assets[j]).name@) ==> {
            if preferred(framework_id, assets[i].name@) {
                preferred(framework_id, assets[j].name@) ==> i < j
            } else {
                !preferred(framework_id, assets[j].name@) && i < j
            }
        }
}

/// Which asset of a release to download. `None` where none is installable.
pub fn choose_asset(framework_id: &str, assets: &[ReleaseAsset]) -> (r: Option<usize>)
    ensures
        match r {
            Some(i) => chosen(framework_id@, assets@, i as int),
            None => forall|j: int|
                0 <= j < assets@.len() ==> !installable((#[trigger] assets@[j]).name@),
        },
{
    let mut first: Option<usize> = None;
    let mut i: usize = 0;
    while i < assets.len()
        invariant
            i <= assets@.len(),
            match first {
                Some(k) => k < i && installable(assets@[k as int].name@) && !preferred(
                    framework_id@,
                    assets@[k as int].name@,
                ) && forall|j: int|
                    0 <= j < i && j != k && installable((#[trigger] assets@[j]).name@) ==> !preferred(
                        framework_id@,
                        assets@[j].name@,
                    ) && k < j,
                None => forall|j: int|
                    0 <= j < i ==> !installable((#[trigger] assets@[j]).name@),
            },
        decreases assets@.len() - i,
    {
        if is_installable(&assets[i].name) {
            if is_preferred(framework_id, &assets[i].name) {
                return Some(i);
            }
            if first.is_none() {
                first = Some(i);
            }
        }
        i += 1;
    }
    first
}

/// The digest that an asset is published with, where it is one of SHA-256.
pub open spec fn published_digest(digest: Option<Seq<char>>) -> Option<Seq<char>> {
    match digest {
        Some(text) => if "sha256:"@.is_prefix_of(text) {
            Some(text.skip(7))
        } else {
            None
        },
        None => None,
    }
}

/// Whether the digest of a download agrees with the published one. Without a
/// published digest every download does.
pub fn digest_agrees(published: &Option<String>, actual: &str) -> (r: bool)
    ensures
        r == match published_digest(option_view(*published)) {
            Some(expected) => lower(actual@) == lower(expected),
            None => true,
        },
{
    match published {
        None => true,
        Some(text) => {
            proof {
                reveal_strlit("sha256:");
            }
            if begins_with(text, "sha256:") {
                let chars = chars_of(text);
                let expected = text_between(&chars, 7, chars.len());
                assert(text@.skip(7) =~= text@.subrange(7, text@.len() as int));
                same_ignoring_case(actual, &expected)
            } else {
                true
            }
        },
    }
}

/// Whether downloaded bytes have the published digest.
pub fn download_agrees(published: &Option<String>, bytes: &[u8]) -> (r: bool)
    ensures
        r == match published_digest(option_view(*published)) {
            Some(expected) => lower(hex_of(sha256_of(bytes@))) == lower(expected),
            None => true,
        },
{
    digest_agrees(published, &sha256_hex(bytes))
}

/// The address that describes the latest release of a framework.
pub fn metadata_url(framework: &FrameworkDescriptor) -> (r: String)
    ensures
        r@ == "https://api.github.com/repos/"@ + framework@.repository + "/releases/latest"@,
{
    "https://api.github.com/repos/".to_owned().concat(framework.repository).concat(
        "/releases/latest",
    )
}

/// The directory of downloads.
pub fn download_dir(paths: &AppPaths) -> (r: String)
    ensures
        r@ == join_path(paths.cache_dir@, "downloads"@),
{
    join(&paths.cache_dir, "downloads")
}

/// The file that the description of a latest release is kept in.
pub fn metadata_path(paths: &AppPaths, framework_id: &str) -> (r: String)
    ensures
        r@ == join_path(
            join_path(paths.cache_dir@, "downloads"@),
            framework_id@ + "-latest.json"@,
        ),
{
    join(&download_dir(paths), &framework_id.to_owned().concat("-latest.json"))
}

/// Why a framework could not be fetched.
#[derive(Debug)]
pub enum FetchError {
    UnknownFramework(String),
    NoAsset(&'static str),
    DigestMismatch(String),
}

impl FetchError {
    /// What went wrong, in words.
    pub open spec fn text(self) -> Seq<char> {
        match self {
            FetchError::UnknownFramework(id) => "unknown framework "@ + id@,
            FetchError::NoAsset(name) => name@ + " latest release has no installable zip asset"@,
            FetchError::DigestMismatch(name) => "GitHub digest mismatch for "@ + name@,
        }
    }

    /// What went wrong, in words.
    pub fn message(&self) -> (r: String)
        ensures
            r@ == self.text(),
    {
        match self {
            FetchError::UnknownFramework(id) => "unknown framework ".to_owned().concat(id),
            FetchError::NoAsset(name) => (*name).to_owned().concat(
                " latest release has no installable zip asset",
            ),
            FetchError::DigestMismatch(name) => "GitHub digest mismatch for ".to_owned().concat(name),
        }
    }
}

/// Which asset to download, and what comes of it.
#[derive(Debug)]
pub struct DownloadPlan {
    pub asset: usize,
    pub downloaded: DownloadedFramework,
}

/// Finds the framework to fetch.
pub fn fetch(framework_id: &str) -> (r: Result<FrameworkDescriptor, FetchError>)
    ensures
        match r {
            Ok(framework) => known(framework_id@) == Some(framework@),
            Err(error) => known(framework_id@) is None && error is UnknownFramework
                && error->UnknownFramework_0@ == framework_id@,
        },
{
    match find_framework(framework_id) {
        Some(framework) => Ok(framework),
        None => Err(FetchError::UnknownFramework(framework_id.to_owned())),
    }
}

/// Decides what to download of the latest release of a framework.
pub fn plan_download(
    paths: &AppPaths,
    framework: &FrameworkDescriptor,
    tag: &str,
    assets: &[ReleaseAsset],
) -> (r: Result<DownloadPlan, FetchError>)
    ensures
        match r {
            Ok(plan) => {
                &&& chosen(framework@.id, assets@, plan.asset as int)
                &&& plan.downloaded.path@ == join_path(
                    join_path(paths.cache_dir@, "downloads"@),
                    assets@[plan.asset as int].name@,
                )
                &&& plan.downloaded.version@ == trimmed_start(tag@, CharClass::Only('v'))
            },
            Err(error) => {
                &&& forall|j: int|
                    0 <= j < assets@.len() ==> !installable((#[trigger] assets@[j]).name@)
                &&& error is NoAsset
                &&& error->NoAsset_0@ == framework@.name
            },
        },
{
    match choose_asset(framework.id, assets) {
        None => Err(FetchError::NoAsset(framework.name)),
        Some(asset) => Ok(
            DownloadPlan {
                asset,
                downloaded: DownloadedFramework {
                    path: join(&download_dir(paths), &assets[asset].name),
                    version: trim_start(tag, &CharClass::Only('v')),
                },
            },
        ),
    }
}

/// Accepts or refuses a download.
pub fn accept_download(asset: &ReleaseAsset, bytes: &[u8]) -> (r: Result<(), FetchError>)
    ensures
        r is Ok <==> match published_digest(option_view(asset.digest)) {
            Some(expected) => lower(hex_of(sha256_of(bytes@))) == lower(expected),
            None => true,
        },
        r is Err ==> r->Err_0 is DigestMismatch && r->Err_0->DigestMismatch_0@ == asset.name@,
        asset.digest is None ==> r is Ok,
        forall|digest: Seq<char>|
            asset.digest is Some && asset.digest->0@ == #[trigger] ("sha256:"@ + digest) ==> (r is Ok
                <==> lower(hex_of(sha256_of(bytes@))) == lower(digest)),
{
    proof {
        assert forall|digest: Seq<char>|
            asset.digest is Some && asset.digest->0@ == #[trigger] (
            "sha256:"@ + digest) implies published_digest(option_view(asset.digest)) == Some(
            digest,
        ) by {
            law_published_digests_are_read(digest, digest);
        }
    }
    if download_agrees(&asset.digest, bytes) {
        Ok(())
    } else {
        Err(FetchError::DigestMismatch(asset.name.clone()))
    }
}

proof fn lemma_more(list: Seq<Seq<char>>, holds: bool, text: Seq<char>, wanted: Seq<char>)
    ensures
        (list + if_so(holds, text)).contains(wanted) <==> list.contains(wanted) || (holds && text
            == wanted),
{
    let all = list + if_so(holds, text);
    if list.contains(wanted) {
        let i = choose|i: int| 0 <= i < list.len() && list[i] == wanted;
        assert(all[i] == wanted);
    }
    if holds {
        assert(all[list.len() as int] == text);
    }
    if all.contains(wanted) {
        let i = choose|i: int| 0 <= i < all.len() && all[i] == wanted;
        if i < list.len() {
            assert(list[i] == wanted);
        }
    }
}

proof fn lemma_ids_differ()
    ensures
        "archivexl"@ != "cyber-engine-tweaks"@,
        "archivexl"@ != "red4ext"@,
        "archivexl"@ != "redscript"@,
        "archivexl"@ != "tweakxl"@,
        "cyber-engine-tweaks"@ != "red4ext"@,
        "cyber-engine-tweaks"@ != "redscript"@,
        "cyber-engine-tweaks"@ != "tweakxl"@,
        "red4ext"@ != "redscript"@,
        "red4ext"@ != "tweakxl"@,
        "redscript"@ != "tweakxl"@,
{
    reveal_strlit("archivexl");
    reveal_strlit("cyber-engine-tweaks");
    reveal_strlit("red4ext");
    reveal_strlit("redscript");
    reveal_strlit("tweakxl");
    assert("archivexl"@[0] == 'a' && "cyber-engine-tweaks"@[0] == 'c' && "tweakxl"@[0] == 't');
    assert("red4ext"@[0] == 'r' && "redscript"@[0] == 'r' && "red4ext"@.len() == 7);
}

/// A mod requires a framework exactly where its files show it, in any case of letters:
/// scripts of Lua and a file below the directory of Cyber Engine Tweaks; scripts of
/// redscript and a file below `r6/scripts/`; a file that ends in `.xl` for ArchiveXL; one
/// that ends in `.tweak`, or in `.yaml` beside a file below `r6/tweaks/`, for TweakXL; a
/// library and a file below `red4ext/plugins/` for RED4ext. It requires nothing else.
pub proof fn law_requirements_follow_the_files(paths: Seq<String>)
    ensures
        inferred(paths).contains("red4ext"@) <==> (exists|i: int|
            0 <= i < paths.len() && ".dll"@.is_suffix_of(lower((#[trigger] paths[i])@))) && (exists|
            i: int,
        |
            0 <= i < paths.len() && "red4ext/plugins/"@.is_prefix_of(lower((#[trigger] paths[i])@))),
        inferred(paths).contains("redscript"@) <==> (exists|i: int|
            0 <= i < paths.len() && ".reds"@.is_suffix_of(lower((#[trigger] paths[i])@))) && (exists|
            i: int,
        |
            0 <= i < paths.len() && "r6/scripts/"@.is_prefix_of(lower((#[trigger] paths[i])@))),
        inferred(paths).contains("cyber-engine-tweaks"@) <==> (exists|i: int|
            0 <= i < paths.len() && ".lua"@.is_suffix_of(lower((#[trigger] paths[i])@))) && (exists|
            i: int,
        |
            0 <= i < paths.len() && "bin/x64/plugins/cyber_engine_tweaks/"@.is_prefix_of(
                lower((#[trigger] paths[i])@),
            )),
        inferred(paths).contains("archivexl"@) <==> exists|i: int|
            0 <= i < paths.len() && ".xl"@.is_suffix_of(lower((#[trigger] paths[i])@)),
        inferred(paths).contains("tweakxl"@) <==> (exists|i: int|
            0 <= i < paths.len() && ".tweak"@.is_suffix_of(lower((#[trigger] paths[i])@))) || ((
        exists|i: int|
            0 <= i < paths.len() && ".yaml"@.is_suffix_of(lower((#[trigger] paths[i])@))) && (exists|
            i: int,
        |
            0 <= i < paths.len() && "r6/tweaks/"@.is_prefix_of(lower((#[trigger] paths[i])@)))),
        forall|id: Seq<char>| #[trigger]
            inferred(paths).contains(id) ==> id == "red4ext"@ || id == "redscript"@ || id
                == "cyber-engine-tweaks"@ || id == "archivexl"@ || id == "tweakxl"@,
{
    lemma_ids_differ();
    assert forall|id: Seq<char>| #[trigger] inferred(paths).contains(id) <==> {
        ||| some_ends(paths, ".xl"@) && id == "archivexl"@
        ||| some_ends(paths, ".lua"@) && some_begins(
            paths,
            "bin/x64/plugins/cyber_engine_tweaks/"@,
        ) && id == "cyber-engine-tweaks"@
        ||| some_ends(paths, ".dll"@) && some_begins(paths, "red4ext/plugins/"@) && id == "red4ext"@
        ||| some_ends(paths, ".reds"@) && some_begins(paths, "r6/scripts/"@) && id == "redscript"@
        ||| (some_ends(paths, ".tweak"@) || (some_ends(paths, ".yaml"@) && some_begins(
            paths,
            "r6/tweaks/"@,
        ))) && id == "tweakxl"@
    } by {
        let a = some_ends(paths, ".xl"@);
        let b = some_ends(paths, ".lua"@) && some_begins(
            paths,
            "bin/x64/plugins/cyber_engine_tweaks/"@,
        );
        let c = some_ends(paths, ".dll"@) && some_begins(paths, "red4ext/plugins/"@);
        let d = some_ends(paths, ".reds"@) && some_begins(paths, "r6/scripts/"@);
        let e = some_ends(paths, ".tweak"@) || (some_ends(paths, ".yaml"@) && some_begins(
            paths,
            "r6/tweaks/"@,
        ));
        let none = Seq::<Seq<char>>::empty();
        let one = if_so(a, "archivexl"@);
        let two = one + if_so(b, "cyber-engine-tweaks"@);
        let three = two + if_so(c, "red4ext"@);
        let four = three + if_so(d, "redscript"@);
        lemma_more(none, a, "archivexl"@, id);
        assert(none + one =~= one);
        lemma_more(one, b, "cyber-engine-tweaks"@, id);
        lemma_more(two, c, "red4ext"@, id);
        lemma_more(three, d, "redscript"@, id);
        lemma_more(four, e, "tweakxl"@, id);
    }
}

proof fn lemma_small(text: Seq<char>)
    requires
        forall|i: int| 0 <= i < text.len() ==> !('A' <= #[trigger] text[i] && text[i] <= 'Z'),
    ensures
        lower(text) == text,
{
    law_lower_is_by_characters(text, Seq::empty());
}

proof fn lemma_ends(name: Seq<char>, end: Seq<char>)
    requires
        lower(end) == end,
    ensures
        end.is_suffix_of(lower(name + end)),
{
    law_lower_is_by_characters(name, end);
    let whole = lower(name + end);
    assert(end =~= whole.subrange(whole.len() - end.len(), whole.len() as int));
}

proof fn lemma_starts(front: Seq<char>, name: Seq<char>)
    requires
        lower(front) == front,
    ensures
        front.is_prefix_of(lower(front + name)),
{
    law_lower_is_by_characters(front, name);
    let whole = lower(front + name);
    assert(front =~= whole.subrange(0, front.len() as int));
}

/// One file is enough to tell what a mod requires, whatever else it holds: a library below
/// `red4ext/plugins/` needs RED4ext, a script below `r6/scripts/` redscript, one below the
/// directory of Cyber Engine Tweaks that framework, a tweak TweakXL, a file that ends in
/// `.xl` ArchiveXL.
pub proof fn law_plugins_need_their_loader(paths: Seq<String>, i: int, name: Seq<char>)
    requires
        0 <= i < paths.len(),
    ensures
        paths[i]@ == "red4ext/plugins/"@ + name + ".dll"@ ==> inferred(paths).contains("red4ext"@),
        paths[i]@ == "r6/scripts/"@ + name + ".reds"@ ==> inferred(paths).contains("redscript"@),
        paths[i]@ == "bin/x64/plugins/cyber_engine_tweaks/"@ + name + ".lua"@ ==> inferred(
            paths,
        ).contains("cyber-engine-tweaks"@),
        paths[i]@ == "r6/tweaks/"@ + name + ".yaml"@ ==> inferred(paths).contains("tweakxl"@),
        paths[i]@ == name + ".tweak"@ ==> inferred(paths).contains("tweakxl"@),
        paths[i]@ == name + ".xl"@ ==> inferred(paths).contains("archivexl"@),
{
    reveal_strlit("red4ext/plugins/");
    reveal_strlit(".dll");
    reveal_strlit("r6/scripts/");
    reveal_strlit(".reds");
    reveal_strlit("bin/x64/plugins/cyber_engine_tweaks/");
    reveal_strlit(".lua");
    reveal_strlit("r6/tweaks/");
    reveal_strlit(".yaml");
    reveal_strlit(".tweak");
    reveal_strlit(".xl");
    law_requirements_follow_the_files(paths);
    lemma_small("red4ext/plugins/"@);
    lemma_small(".dll"@);
    lemma_small("r6/scripts/"@);
    lemma_small(".reds"@);
    lemma_small("bin/x64/plugins/cyber_engine_tweaks/"@);
    lemma_small(".lua"@);
    lemma_small("r6/tweaks/"@);
    lemma_small(".yaml"@);
    lemma_small(".tweak"@);
    lemma_small(".xl"@);
    lemma_ends("red4ext/plugins/"@ + name, ".dll"@);
    lemma_ends("r6/scripts/"@ + name, ".reds"@);
    lemma_ends("bin/x64/plugins/cyber_engine_tweaks/"@ + name, ".lua"@);
    lemma_ends("r6/tweaks/"@ + name, ".yaml"@);
    lemma_ends(name, ".tweak"@);
    lemma_ends(name, ".xl"@);
    lemma_starts("red4ext/plugins/"@, name + ".dll"@);
    lemma_starts("r6/scripts/"@, name + ".reds"@);
    lemma_starts("bin/x64/plugins/cyber_engine_tweaks/"@, name + ".lua"@);
    lemma_starts("r6/tweaks/"@, name + ".yaml"@);
    assert("red4ext/plugins/"@ + name + ".dll"@ =~= "red4ext/plugins/"@ + (name + ".dll"@));
    assert("r6/scripts/"@ + name + ".reds"@ =~= "r6/scripts/"@ + (name + ".reds"@));
    assert("bin/x64/plugins/cyber_engine_tweaks/"@ + name + ".lua"@
        =~= "bin/x64/plugins/cyber_engine_tweaks/"@ + (name + ".lua"@));
    assert("r6/tweaks/"@ + name + ".yaml"@ =~= "r6/tweaks/"@ + (name + ".yaml"@));
}

/// More files need no less: what some files require, they require also among others.
pub proof fn law_more_files_require_no_less(paths: Seq<String>, more: Seq<String>, id: Seq<char>)
    requires
        inferred(paths).contains(id),
    ensures
        inferred(paths + more).contains(id),
        inferred(more + paths).contains(id),
{
    law_requirements_follow_the_files(paths);
    law_requirements_follow_the_files(paths + more);
    law_requirements_follow_the_files(more + paths);
    let front = paths + more;
    let behind = more + paths;
    assert forall|i: int| 0 <= i < paths.len() implies #[trigger] paths[i] == front[i] && paths[i]
        == behind[more.len() + i] by {}
}

/// A release is a copy of a framework by its id, or by its name in any case of letters.
pub proof fn law_copies_are_known_by_id_or_name(release: ModRelease, framework: Framework)
    ensures
        release.id@ == framework.id ==> is_copy(release, framework),
        release.name@ == framework.name ==> is_copy(release, framework),
        lower(release.name@) == lower(framework.name) ==> is_copy(release, framework),
        is_copy(release, framework) && release.id@ != framework.id ==> lower(release.name@) == lower(
            framework.name,
        ),
{
}

/// The asset to download is a zip of the framework itself, not of its sources or for those
/// who work on it. A preferred one is taken where there is any; of equals the first.
pub proof fn law_installable_assets_are_taken(
    framework_id: Seq<char>,
    assets: Seq<ReleaseAsset>,
    i: int,
)
    requires
        chosen(framework_id, assets, i),
    ensures
        ({
            let small = lower(assets[i].name@);
            &&& ".zip"@.is_suffix_of(small)
            &&& forall|at: int|
                #![trigger stands_at(small, "source"@, at)]
                !stands_at(small, "source"@, at)
            &&& forall|at: int|
                #![trigger stands_at(small, "debug"@, at)]
                !stands_at(small, "debug"@, at)
            &&& forall|at: int|
                #![trigger stands_at(small, "symbols"@, at)]
                !stands_at(small, "symbols"@, at)
            &&& forall|at: int|
                #![trigger stands_at(small, "pdb"@, at)]
                !stands_at(small, "pdb"@, at)
            &&& forall|at: int|
                #![trigger stands_at(small, "dev"@, at)]
                !stands_at(small, "dev"@, at)
            &&& framework_id == "redscript"@ && (exists|j: int|
                0 <= j < assets.len() && installable((#[trigger] assets[j]).name@) && occurs(
                    lower(assets[j].name@),
                    "redscript-mod"@,
                )) ==> occurs(small, "redscript-mod"@)
            &&& framework_id == "cyber-engine-tweaks"@ && (exists|j: int|
                0 <= j < assets.len() && installable((#[trigger] assets[j]).name@) && occurs(
                    lower(assets[j].name@),
                    "cet"@,
                )) ==> occurs(small, "cet"@) || occurs(small, "cyber"@)
            &&& framework_id != "redscript"@ && framework_id != "cyber-engine-tweaks"@ ==> forall|
                j: int,
            |
                0 <= j < i ==> !installable((#[trigger] assets[j]).name@)
        }),
{
    let small = lower(assets[i].name@);
    if exists|at: int| stands_at(small, "source"@, at) {
        assert(occurs(small, "source"@));
    }
    reveal_strlit("redscript");
    reveal_strlit("cyber-engine-tweaks");
    assert("redscript"@.len() != "cyber-engine-tweaks"@.len());
}

/// A digest of SHA-256 is read from the notation that it is published in, and nothing but
/// that notation names one.
pub proof fn law_published_digests_are_read(digest: Seq<char>, more: Seq<char>)
    ensures
        published_digest(Some("sha256:"@ + digest)) == Some(digest),
        published_digest(None) is None,
        published_digest(Some(more)) is Some ==> more == "sha256:"@ + published_digest(Some(more))->0,
{
    reveal_strlit("sha256:");
    let text = "sha256:"@ + digest;
    assert("sha256:"@ =~= text.subrange(0, 7));
    assert(text.skip(7) =~= digest);
    if "sha256:"@.is_prefix_of(more) {
        assert(more =~= "sha256:"@ + more.skip(7));
    }
}

/// Each framework is fetched from the repository of those who make it, and is known by its
/// id, under which it is found again.
pub proof fn law_frameworks_come_from_their_makers(i: int)
    requires
        0 <= i < catalog().len(),
    ensures
        catalog().len() == 6,
        known(catalog()[i].id) == Some(catalog()[i]),
        label_of(catalog()[i].id) == catalog()[i].name,
        catalog()[i].id == "cyber-engine-tweaks"@ ==> catalog()[i].repository
            == "maximegmd/CyberEngineTweaks"@,
        catalog()[i].id == "redscript"@ ==> catalog()[i].repository == "jac3km4/redscript"@,
        catalog()[i].id == "red4ext"@ ==> catalog()[i].repository == "wopss/RED4ext"@,
        catalog()[i].id == "archivexl"@ ==> catalog()[i].repository == "psiberx/cp2077-archive-xl"@,
        catalog()[i].id == "tweakxl"@ ==> catalog()[i].repository == "psiberx/cp2077-tweak-xl"@,
        catalog()[i].id == "codeware"@ ==> catalog()[i].repository == "psiberx/cp2077-codeware"@,
        seq![
            "cyber-engine-tweaks"@,
            "redscript"@,
            "red4ext"@,
            "archivexl"@,
            "tweakxl"@,
            "codeware"@,
        ][i] == catalog()[i].id,
{
    lemma_ids_differ();
    reveal_strlit("codeware");
    reveal_strlit("archivexl");
    reveal_strlit("cyber-engine-tweaks");
    reveal_strlit("red4ext");
    reveal_strlit("redscript");
    reveal_strlit("tweakxl");
    assert("codeware"@.len() == 8 && "codeware"@[0] == 'c' && "cyber-engine-tweaks"@.len() == 19);
    assert("archivexl"@.len() == 9 && "red4ext"@.len() == 7 && "redscript"@.len() == 9);
    assert("tweakxl"@.len() == 7);
    assert(known_at(catalog()[i].id, i)) by {
        assert forall|j: int| 0 <= j < i implies (#[trigger] catalog()[j]).id != catalog()[i].id by {
            assert(j == 0 || j == 1 || j == 2 || j == 3 || j == 4);
            assert(i == 1 || i == 2 || i == 3 || i == 4 || i == 5);
        }
    }
    let k = choose|k: int| known_at(catalog()[i].id, k);
    assert(known_at(catalog()[i].id, k));
    assert(k == i) by {
        if k < i {
            assert(catalog()[k].id != catalog()[i].id);
        }
        if i < k {
            assert(catalog()[i].id != catalog()[i].id);
        }
    }
}

/// An asset can be installed where it is a zip and its name has none of the words that
/// stand for sources, for finding errors or for working on the framework, in any case of
/// letters. Where there are several, a name that tells of the mod itself is preferred for
/// redscript and for Cyber Engine Tweaks, and any name for the others.
pub proof fn law_assets_are_told_by_their_names(framework_id: Seq<char>, name: Seq<char>)
    ensures
        installable(name) <==> ".zip"@.is_suffix_of(lower(name)) && !occurs(lower(name), "source"@)
            && !occurs(lower(name), "debug"@) && !occurs(lower(name), "symbols"@) && !occurs(
            lower(name),
            "pdb"@,
        ) && !occurs(lower(name), "dev"@),
        framework_id == "redscript"@ ==> (preferred(framework_id, name) <==> occurs(
            lower(name),
            "redscript-mod"@,
        )),
        framework_id == "cyber-engine-tweaks"@ ==> (preferred(framework_id, name) <==> occurs(
            lower(name),
            "cet"@,
        ) || occurs(lower(name), "cyber"@)),
        framework_id != "redscript"@ && framework_id != "cyber-engine-tweaks"@ ==> preferred(
            framework_id,
            name,
        ),
{
    lemma_ids_differ();
}

} // verus!
