//! The lockfile: for each provider, the mods and files that were fetched, with the hash
//! and store path of each file.
use vstd::prelude::*;

use crate::provider::{default_limits, Limits};
use crate::strmap::StrMap;
use crate::text::{i32_to_decimal, int_decimal, lemma_int_decimal_injective};

verus! {

/// One fetched file of a mod: its ids, its hash and where it lies in the store.
#[derive(Debug)]
pub struct ModLock {
    pub mod_id: i32,
    pub file_id: i32,
    pub sha: String,
    pub store_path: String,
}

impl ModLock {
    /// A lock entry from its parts.
    pub fn new(mod_id: i32, file_id: i32, sha: String, store_path: String) -> (r: Self)
        ensures
            r.mod_id == mod_id,
            r.file_id == file_id,
            r.sha == sha,
            r.store_path == store_path,
    {
        ModLock { file_id, mod_id, sha, store_path }
    }
}

impl Clone for ModLock {
    fn clone(&self) -> (r: Self)
        ensures
            r == *self,
    {
        ModLock {
            mod_id: self.mod_id,
            file_id: self.file_id,
            sha: self.sha.clone(),
            store_path: self.store_path.clone(),
        }
    }
}

/// Key under which a mod id is filed: its decimal rendering.
pub open spec fn id_key(id: i32) -> Seq<char> {
    int_decimal(id as int)
}

/// The mods of a provider: mod key, then file key, to lock entry.
pub type ModsView = Map<Seq<char>, Map<Seq<char>, ModLock>>;

/// The files recorded for a mod key (none when the key is absent).
pub open spec fn files_of(mods: ModsView, mod_key: Seq<char>) -> Map<Seq<char>, ModLock> {
    if mods.contains_key(mod_key) {
        mods[mod_key]
    } else {
        Map::empty()
    }
}

/// `mods` with `m` filed under its mod id and file id, replacing what was there.
pub open spec fn with_modlock(mods: ModsView, m: ModLock) -> ModsView {
    mods.insert(id_key(m.mod_id), files_of(mods, id_key(m.mod_id)).insert(id_key(m.file_id), m))
}

/// The entry filed under a mod key and a file key, if any.
pub open spec fn lookup_mods(mods: ModsView, mod_key: Seq<char>, file_key: Seq<char>) -> Option<
    ModLock,
> {
    if mods.contains_key(mod_key) && mods[mod_key].contains_key(file_key) {
        Some(mods[mod_key][file_key])
    } else {
        None
    }
}

/// What a provider's record holds: its name, its mods and its limits.
pub struct ProviderView {
    pub name: Seq<char>,
    pub mods: ModsView,
    pub limits: Limits,
}

/// The record of a provider met for the first time: no name, no mods, default limits.
pub open spec fn default_provider() -> ProviderView {
    ProviderView { name: Seq::empty(), mods: Map::empty(), limits: default_limits() }
}

/// The lock entries of one provider.
#[derive(Debug)]
pub struct LockProvider {
    pub name: String,
    pub mods: StrMap<StrMap<ModLock>>,
    pub limits: Limits,
}

impl View for LockProvider {
    type V = ProviderView;

    open spec fn view(&self) -> ProviderView {
        ProviderView {
            name: self.name@,
            mods: self.mods@.map_values(|files: StrMap<ModLock>| files@),
            limits: self.limits,
        }
    }
}

impl LockProvider {
    /// Files `modlock` under its mod id and file id (their decimal renderings), replacing
    /// an entry already filed there. It always succeeds.
    pub fn insert_modlock(&mut self, modlock: ModLock) -> (r: Result<(), ()>)
        ensures
            final(self)@ == (ProviderView { mods: with_modlock(old(self)@.mods, modlock), ..old(self)@ }),
            r == Ok::<(), ()>(()),
    {
        let mod_key = i32_to_decimal(modlock.mod_id);
        let file_key = i32_to_decimal(modlock.file_id);
        let mut files = match self.mods.remove(mod_key.as_str()) {
            Some(files) => files,
            None => StrMap::new(),
        };
        assert(files@ == files_of(old(self)@.mods, mod_key@));
        files.insert(file_key, modlock);
        self.mods.insert(mod_key, files);
        assert(self.mods@.map_values(|files: StrMap<ModLock>| files@) =~= with_modlock(
            old(self)@.mods,
            modlock,
        ));
        Ok(())
    }

    /// Removes the entry filed under `modid` and `fileid`. The mod must have been
    /// recorded; the result is `Err` exactly when the file was not.
    pub fn remove_modlock_by_fileid(&mut self, modid: &str, fileid: &str) -> (r: Result<(), ()>)
        requires
            old(self)@.mods.contains_key(modid@),
        ensures
            final(self)@ == (ProviderView {
                mods: old(self)@.mods.insert(modid@, old(self)@.mods[modid@].remove(fileid@)),
                ..old(self)@
            }),
            r is Ok <==> old(self)@.mods[modid@].contains_key(fileid@),
            r is Err ==> final(self)@ == old(self)@,
            !final(self)@.mods[modid@].contains_key(fileid@),
            forall|mod_key: Seq<char>, file_key: Seq<char>|
                !(mod_key == modid@ && file_key == fileid@) ==> lookup_mods(
                    #[trigger] final(self)@.mods,
                    mod_key,
                    file_key,
                ) == lookup_mods(old(self)@.mods, mod_key, file_key),
    {
        let mut files = match self.mods.remove(modid) {
            Some(files) => files,
            None => StrMap::new(),
        };
        let removed = files.remove(fileid);
        self.mods.insert(String::from_str(modid), files);
        assert(self.mods@.map_values(|files: StrMap<ModLock>| files@) =~= old(self)@.mods.insert(
            modid@,
            old(self)@.mods[modid@].remove(fileid@),
        ));
        proof {
            if !old(self)@.mods[modid@].contains_key(fileid@) {
                assert(old(self)@.mods[modid@].remove(fileid@) =~= old(self)@.mods[modid@]);
                assert(self@.mods =~= old(self)@.mods);
            }
        }
        match removed {
            Some(_) => Ok(()),
            None => Err(()),
        }
    }
}

impl Default for LockProvider {
    fn default() -> (r: Self)
        ensures
            r@ == default_provider(),
    {
        let r = LockProvider { name: String::new(), mods: StrMap::new(), limits: Limits::default() };
        assert(r@.mods =~= Map::empty());
        r
    }
}


/// Name of the provider that removals act on.
pub open spec fn nexus_key() -> Seq<char> {
    seq!['n', 'e', 'x', 'u', 's']
}

/// The providers of a lockfile, by name.
pub type ProvidersView = Map<Seq<char>, ProviderView>;

/// What a lockfile holds: its revision and its providers.
pub struct LockfileView {
    pub revision: usize,
    pub providers: ProvidersView,
}

/// The record of provider `name` (a fresh record when it has none).
pub open spec fn provider_or_default(providers: ProvidersView, name: Seq<char>) -> ProviderView {
    if providers.contains_key(name) {
        providers[name]
    } else {
        default_provider()
    }
}

/// `providers` after `m` is filed with provider `name`, which is created when missing.
pub open spec fn add_mod_providers(providers: ProvidersView, name: Seq<char>, m: ModLock) -> ProvidersView {
    let p = provider_or_default(providers, name);
    providers.insert(name, ProviderView { mods: with_modlock(p.mods, m), ..p })
}

/// The entry that provider `name` holds under a mod key and a file key, if any.
pub open spec fn lookup_entry(
    providers: ProvidersView,
    name: Seq<char>,
    mod_key: Seq<char>,
    file_key: Seq<char>,
) -> Option<ModLock> {
    if providers.contains_key(name) {
        lookup_mods(providers[name].mods, mod_key, file_key)
    } else {
        None
    }
}

/// A removal from the lockfile can go ahead without failing: either there is no `nexus`
/// provider, or it has recorded the mod.
pub open spec fn removal_allowed(providers: ProvidersView, mod_key: Seq<char>) -> bool {
    providers.contains_key(nexus_key()) ==> providers[nexus_key()].mods.contains_key(mod_key)
}

/// `providers` after the file `file_key` of mod `mod_key` is removed from the `nexus`
/// provider (unchanged when there is no such provider).
pub open spec fn remove_file_providers(
    providers: ProvidersView,
    mod_key: Seq<char>,
    file_key: Seq<char>,
) -> ProvidersView {
    if providers.contains_key(nexus_key()) {
        let p = providers[nexus_key()];
        providers.insert(
            nexus_key(),
            ProviderView { mods: p.mods.insert(mod_key, p.mods[mod_key].remove(file_key)), ..p },
        )
    } else {
        providers
    }
}

/// Whether that removal finds the file.
pub open spec fn remove_file_succeeds(
    providers: ProvidersView,
    mod_key: Seq<char>,
    file_key: Seq<char>,
) -> bool {
    providers.contains_key(nexus_key()) && providers[nexus_key()].mods[mod_key].contains_key(
        file_key,
    )
}

/// The lockfile: a revision stamp and the lock entries of each provider.
#[derive(Debug)]
pub struct Lockfile {
    pub revision: usize,
    pub providers: StrMap<LockProvider>,
}

impl View for Lockfile {
    type V = LockfileView;

    open spec fn view(&self) -> LockfileView {
        LockfileView {
            revision: self.revision,
            providers: self.providers@.map_values(|p: LockProvider| p@),
        }
    }
}

fn nexus_name() -> (r: &'static str)
    ensures
        r@ == nexus_key(),
{
    proof {
        reveal_strlit("nexus");
    }
    "nexus"
}

impl Lockfile {
    /// A lockfile at revision 0 with one empty `nexus` provider.
    pub fn new() -> (r: Self)
        ensures
            r@.revision == 0,
            r@.providers == Map::<Seq<char>, ProviderView>::empty().insert(
                nexus_key(),
                default_provider(),
            ),
    {
        let mut providers = StrMap::new();
        providers.insert(String::from_str(nexus_name()), LockProvider::default());
        let r = Lockfile { revision: 0, providers };
        assert(r@.providers =~= Map::<Seq<char>, ProviderView>::empty().insert(
            nexus_key(),
            default_provider(),
        ));
        r
    }

    /// Files `modlock` with provider `provider_name`, creating a fresh record for the
    /// provider when it has none. It always succeeds.
    pub fn add_mod(&mut self, provider_name: &str, modlock: ModLock) -> (r: Result<(), ()>)
        ensures
            final(self)@.revision == old(self)@.revision,
            final(self)@.providers == add_mod_providers(
                old(self)@.providers,
                provider_name@,
                modlock,
            ),
            r == Ok::<(), ()>(()),
    {
        let mut provider = match self.providers.remove(provider_name) {
            Some(p) => p,
            None => LockProvider::default(),
        };
        let r = provider.insert_modlock(modlock);
        self.providers.insert(String::from_str(provider_name), provider);
        assert(self@.providers =~= add_mod_providers(old(self)@.providers, provider_name@, modlock));
        r
    }

    /// Removes a file from the `nexus` provider. `Err` when there is no such provider
    /// or it has not recorded the file; the mod itself must have been recorded there.
    pub fn remove_fileid(&mut self, modid: &str, fileid: &str) -> (r: Result<(), ()>)
        requires
            removal_allowed(old(self)@.providers, modid@),
        ensures
            final(self)@.revision == old(self)@.revision,
            final(self)@.providers == remove_file_providers(old(self)@.providers, modid@, fileid@),
            r is Ok <==> remove_file_succeeds(old(self)@.providers, modid@, fileid@),
            r is Ok <==> (old(self)@.providers.contains_key(nexus_key())
                && old(self)@.providers[nexus_key()].mods[modid@].contains_key(fileid@)),
            r is Err ==> final(self)@.providers == old(self)@.providers,
            lookup_entry(final(self)@.providers, nexus_key(), modid@, fileid@) is None,
            forall|name: Seq<char>, mod_key: Seq<char>, file_key: Seq<char>|
                !(name == nexus_key() && mod_key == modid@ && file_key == fileid@) ==> lookup_entry(
                    #[trigger] final(self)@.providers,
                    name,
                    mod_key,
                    file_key,
                ) == lookup_entry(old(self)@.providers, name, mod_key, file_key),
    {
        proof {
            lemma_remove_missing_file_keeps_providers(old(self)@.providers, modid@, fileid@);
            lemma_remove_clears_entry(old(self)@.providers, modid@, fileid@);
            assert forall|name: Seq<char>, mod_key: Seq<char>, file_key: Seq<char>|
                !(name == nexus_key() && mod_key == modid@ && file_key == fileid@) implies lookup_entry(
                    remove_file_providers(old(self)@.providers, modid@, fileid@),
                    name,
                    mod_key,
                    file_key,
                ) == lookup_entry(old(self)@.providers, name, mod_key, file_key) by {
                lemma_remove_keeps_other_entries(old(self)@.providers, modid@, fileid@, name, mod_key, file_key);
            }
        }
        let name = nexus_name();
        match self.providers.remove(name) {
            None => {
                assert(self@.providers =~= old(self)@.providers);
                Err(())
            },
            Some(mut p) => {
                let r = p.remove_modlock_by_fileid(modid, fileid);
                self.providers.insert(String::from_str(name), p);
                assert(self@.providers =~= remove_file_providers(
                    old(self)@.providers,
                    modid@,
                    fileid@,
                ));
                r
            },
        }
    }

    /// The record of provider `name`, if the lockfile has one.
    pub fn get_provider(&self, name: &str) -> (r: Option<&LockProvider>)
        ensures
            match r {
                Some(p) => self@.providers.contains_key(name@) && p@ == self@.providers[name@],
                None => !self@.providers.contains_key(name@),
            },
    {
        self.providers.get(name)
    }

    /// The entry that provider `provider` holds for a mod key and a file key, if any.
    pub fn get_mod_id(&self, provider: &str, mod_id: &str, file_id: &str) -> (r: Option<&ModLock>)
        ensures
            match r {
                Some(m) => lookup_entry(self@.providers, provider@, mod_id@, file_id@) == Some(*m),
                None => lookup_entry(self@.providers, provider@, mod_id@, file_id@) is None,
            },
    {
        match self.providers.get(provider) {
            None => None,
            Some(p) => match p.mods.get(mod_id) {
                None => None,
                Some(files) => files.get(file_id),
            },
        }
    }
}


/// A lock entry that was just added is found again under its provider, mod id and file id.
pub proof fn lemma_lookup_after_add(providers: ProvidersView, name: Seq<char>, m: ModLock)
    ensures
        lookup_entry(
            add_mod_providers(providers, name, m),
            name,
            id_key(m.mod_id),
            id_key(m.file_id),
        ) == Some(m),
{
}

/// Adding an entry keeps the name and limits of a provider that was recorded, and gives a
/// provider that was not an empty name and the default limits; no other provider changes.
pub proof fn lemma_add_mod_provider_record(providers: ProvidersView, name: Seq<char>, m: ModLock)
    ensures
        add_mod_providers(providers, name, m).dom() == providers.dom().insert(name),
        providers.contains_key(name) ==> add_mod_providers(providers, name, m)[name].name
            == providers[name].name && add_mod_providers(providers, name, m)[name].limits
            == providers[name].limits,
        !providers.contains_key(name) ==> add_mod_providers(providers, name, m)[name].name
            == Seq::<char>::empty() && add_mod_providers(providers, name, m)[name].limits
            == (Limits { limit: 2500, remaining: 2500, reset: usize::MAX }),
        forall|other: Seq<char>|
            other != name && providers.contains_key(other) ==> #[trigger] add_mod_providers(
                providers,
                name,
                m,
            )[other] == providers[other],
{
    assert(add_mod_providers(providers, name, m).dom() =~= providers.dom().insert(name));
}

/// Adding an entry changes what is found under no other provider, mod key or file key.
pub proof fn lemma_add_keeps_other_entries(
    providers: ProvidersView,
    name: Seq<char>,
    m: ModLock,
    other_name: Seq<char>,
    mod_key: Seq<char>,
    file_key: Seq<char>,
)
    requires
        other_name != name || mod_key != id_key(m.mod_id) || file_key != id_key(m.file_id),
    ensures
        lookup_entry(add_mod_providers(providers, name, m), other_name, mod_key, file_key)
            == lookup_entry(providers, other_name, mod_key, file_key),
{
}

/// An entry survives the addition of another entry with a different mod id or file id.
pub proof fn lemma_add_keeps_distinct_mod(
    providers: ProvidersView,
    name: Seq<char>,
    kept: ModLock,
    added: ModLock,
)
    requires
        kept.mod_id != added.mod_id || kept.file_id != added.file_id,
    ensures
        lookup_entry(
            add_mod_providers(providers, name, added),
            name,
            id_key(kept.mod_id),
            id_key(kept.file_id),
        ) == lookup_entry(providers, name, id_key(kept.mod_id), id_key(kept.file_id)),
{
    if id_key(kept.mod_id) == id_key(added.mod_id) {
        lemma_int_decimal_injective(kept.mod_id as int, added.mod_id as int);
    }
    if id_key(kept.file_id) == id_key(added.file_id) {
        lemma_int_decimal_injective(kept.file_id as int, added.file_id as int);
    }
    lemma_add_keeps_other_entries(
        providers,
        name,
        added,
        name,
        id_key(kept.mod_id),
        id_key(kept.file_id),
    );
}

/// Adding the same entry twice is the same as adding it once.
pub proof fn lemma_add_mod_idempotent(providers: ProvidersView, name: Seq<char>, m: ModLock)
    ensures
        add_mod_providers(add_mod_providers(providers, name, m), name, m) == add_mod_providers(
            providers,
            name,
            m,
        ),
{
    let once = add_mod_providers(providers, name, m);
    let p = provider_or_default(providers, name);
    assert(with_modlock(with_modlock(p.mods, m), m) =~= with_modlock(p.mods, m)) by {
        let mk = id_key(m.mod_id);
        let fk = id_key(m.file_id);
        assert(files_of(with_modlock(p.mods, m), mk).insert(fk, m) =~= files_of(p.mods, mk).insert(
            fk,
            m,
        ));
    }
    assert(add_mod_providers(once, name, m) =~= once);
}

/// After a mod file is added to the `nexus` provider, removing it is allowed, succeeds,
/// and leaves nothing under its keys.
pub proof fn lemma_remove_after_add(providers: ProvidersView, m: ModLock)
    ensures
        removal_allowed(add_mod_providers(providers, nexus_key(), m), id_key(m.mod_id)),
        remove_file_succeeds(
            add_mod_providers(providers, nexus_key(), m),
            id_key(m.mod_id),
            id_key(m.file_id),
        ),
        lookup_entry(
            remove_file_providers(
                add_mod_providers(providers, nexus_key(), m),
                id_key(m.mod_id),
                id_key(m.file_id),
            ),
            nexus_key(),
            id_key(m.mod_id),
            id_key(m.file_id),
        ) is None,
{
}

/// Removing a file that was just added to a mod the `nexus` provider already had, and
/// that did not have that file, gives back the providers as they were.
pub proof fn lemma_remove_undoes_add(providers: ProvidersView, m: ModLock)
    requires
        providers.contains_key(nexus_key()),
        providers[nexus_key()].mods.contains_key(id_key(m.mod_id)),
        !providers[nexus_key()].mods[id_key(m.mod_id)].contains_key(id_key(m.file_id)),
    ensures
        remove_file_providers(
            add_mod_providers(providers, nexus_key(), m),
            id_key(m.mod_id),
            id_key(m.file_id),
        ) == providers,
{
    let mk = id_key(m.mod_id);
    let fk = id_key(m.file_id);
    let p = providers[nexus_key()];
    let added = add_mod_providers(providers, nexus_key(), m);
    let files = p.mods[mk];
    assert(files.insert(fk, m).remove(fk) =~= files);
    assert(with_modlock(p.mods, m).insert(mk, with_modlock(p.mods, m)[mk].remove(fk)) =~= p.mods);
    assert(remove_file_providers(added, mk, fk) =~= providers);
}


/// Removing a file that the `nexus` provider has not recorded fails and changes nothing:
/// no other file and no mod is dropped.
pub proof fn lemma_remove_missing_file_keeps_providers(
    providers: ProvidersView,
    mod_key: Seq<char>,
    file_key: Seq<char>,
)
    requires
        removal_allowed(providers, mod_key),
    ensures
        !(providers.contains_key(nexus_key()) && providers[nexus_key()].mods[mod_key].contains_key(
            file_key,
        )) ==> {
            &&& !remove_file_succeeds(providers, mod_key, file_key)
            &&& remove_file_providers(providers, mod_key, file_key) == providers
        },
        (providers.contains_key(nexus_key()) && providers[nexus_key()].mods[mod_key].contains_key(
            file_key,
        )) ==> remove_file_succeeds(providers, mod_key, file_key),
{
    if providers.contains_key(nexus_key()) && !providers[nexus_key()].mods[mod_key].contains_key(
        file_key,
    ) {
        let p = providers[nexus_key()];
        assert(p.mods[mod_key].remove(file_key) =~= p.mods[mod_key]);
        assert(p.mods.insert(mod_key, p.mods[mod_key].remove(file_key)) =~= p.mods);
        assert(remove_file_providers(providers, mod_key, file_key) =~= providers);
    }
}

/// After a removal, nothing is found under the removed keys of the `nexus` provider,
/// provided the mod was recorded (as the removal requires).
pub proof fn lemma_remove_clears_entry(providers: ProvidersView, mod_key: Seq<char>, file_key: Seq<char>)
    requires
        removal_allowed(providers, mod_key),
    ensures
        lookup_entry(remove_file_providers(providers, mod_key, file_key), nexus_key(), mod_key, file_key)
            is None,
{
    lemma_remove_missing_file_keeps_providers(providers, mod_key, file_key);
}

/// A removal leaves every entry under another provider, mod key or file key as it was.
pub proof fn lemma_remove_keeps_other_entries(
    providers: ProvidersView,
    mod_key: Seq<char>,
    file_key: Seq<char>,
    name: Seq<char>,
    other_mod: Seq<char>,
    other_file: Seq<char>,
)
    requires
        removal_allowed(providers, mod_key),
        !(name == nexus_key() && other_mod == mod_key && other_file == file_key),
    ensures
        lookup_entry(remove_file_providers(providers, mod_key, file_key), name, other_mod, other_file)
            == lookup_entry(providers, name, other_mod, other_file),
{
}

} // verus!
