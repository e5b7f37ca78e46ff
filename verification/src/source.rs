//! Tile sources: the table of providers a client can draw tiles from, of
//! which at most one is enabled at a time.

use vstd::prelude::*;
use vstd::string::StringExecFns;

verus! {

/// What a source delivers: finished images, or geometry to be drawn.
#[derive(Debug, Clone, Copy, PartialEq, Eq, Structural)]
pub enum TileType {
    Raster,
    Vector,
}

/// One provider of tiles: the prefix of its URLs and what it delivers.
#[derive(Debug, Clone)]
pub struct TileSource {
    pub url: String,
    pub kind: TileType,
}

/// The table of tile sources as a mathematical map: for each known URL,
/// whether the source is enabled and what it delivers.
pub type SourceTable = Map<Seq<char>, (bool, TileType)>;

/// The same sources, none of them enabled.
pub open spec fn all_disabled(table: SourceTable) -> SourceTable {
    Map::new(|u: Seq<char>| table.dom().contains(u), |u: Seq<char>| (false, table[u].1))
}

/// The same sources, with `url` enabled and every other one disabled.
pub open spec fn only_enabled(table: SourceTable, url: Seq<char>) -> SourceTable {
    Map::new(|u: Seq<char>| table.dom().contains(u), |u: Seq<char>| (u == url, table[u].1))
}

/// No two sources of the table are enabled together.
pub open spec fn at_most_one_enabled(table: SourceTable) -> bool {
    forall|a: Seq<char>, b: Seq<char>|
        table.dom().contains(a) && table.dom().contains(b) && (#[trigger] table[a]).0 && (
        #[trigger] table[b]).0 ==> a == b
}

/// The table holds no source at all.
pub open spec fn no_source(table: SourceTable) -> bool {
    forall|u: Seq<char>| !table.dom().contains(u)
}

/// The sources a new client knows.
pub open spec fn builtin_sources() -> SourceTable {
    Map::<Seq<char>, (bool, TileType)>::empty().insert(
        "https://tile.openstreetmap.org"@,
        (false, TileType::Raster),
    ).insert("https://mt1.google.com/vt/lyrs=y"@, (true, TileType::Raster)).insert(
        "https://mt1.google.com/vt/lyrs=m"@,
        (false, TileType::Raster),
    ).insert("https://mt1.google.com/vt/lyrs=s"@, (false, TileType::Raster)).insert(
        "https://tiles.openfreemap.org/planet/20250122_001001_pt"@,
        (false, TileType::Vector),
    )
}

/// The table a new client has after it was given a starting URL: a known
/// source is enabled in place of the default one, an unknown URL is added as
/// an enabled raster source.
pub open spec fn starting_sources(url: Option<Seq<char>>) -> SourceTable {
    match url {
        None => builtin_sources(),
        Some(u) => if builtin_sources().dom().contains(u) {
            only_enabled(builtin_sources(), u)
        } else {
            all_disabled(builtin_sources()).insert(u, (true, TileType::Raster))
        },
    }
}

spec fn listed(list: Seq<TileSource>, url: Seq<char>) -> bool {
    exists|i: int| 0 <= i < list.len() && (#[trigger] list[i]).url@ == url
}

spec fn position(list: Seq<TileSource>, url: Seq<char>) -> int {
    choose|i: int| 0 <= i < list.len() && (#[trigger] list[i]).url@ == url
}

spec fn distinct(list: Seq<TileSource>) -> bool {
    forall|i: int, j: int|
        0 <= i < j < list.len() ==> (#[trigger] list[i]).url@ != (#[trigger] list[j]).url@
}

spec fn enabled_at(enabled: Option<usize>, place: int) -> bool {
    match enabled {
        Some(i) => i == place,
        None => false,
    }
}

spec fn table_of(list: Seq<TileSource>, enabled: Option<usize>) -> SourceTable {
    Map::new(
        |u: Seq<char>| listed(list, u),
        |u: Seq<char>| (enabled_at(enabled, position(list, u)), list[position(list, u)].kind),
    )
}

/// In a list without repeated URLs, the position of an entry's URL is the
/// entry's own place.
proof fn lemma_position(list: Seq<TileSource>, i: int)
    requires
        distinct(list),
        0 <= i < list.len(),
    ensures
        listed(list, list[i].url@),
        position(list, list[i].url@) == i,
{
    let p = position(list, list[i].url@);
    assert(0 <= p < list.len() && list[p].url@ == list[i].url@);
    if p < i {
        assert(list[p].url@ != list[i].url@);
    } else if i < p {
        assert(list[i].url@ != list[p].url@);
    }
}

proof fn lemma_listed_position(list: Seq<TileSource>, url: Seq<char>)
    requires
        listed(list, url),
    ensures
        0 <= position(list, url) < list.len(),
        list[position(list, url)].url@ == url,
{
}

/// What the table becomes when the entry at `place` (an existing entry of the
/// same URL, or a new last entry) is written and the enabled place adjusted.
proof fn lemma_table_after_put(
    before: Seq<TileSource>,
    before_enabled: Option<usize>,
    after: Seq<TileSource>,
    after_enabled: Option<usize>,
    place: int,
    key: Seq<char>,
    enabled: bool,
    kind: TileType,
)
    requires
        distinct(before),
        0 <= place <= before.len(),
        place <= usize::MAX,
        after.len() == (if place < before.len() {
            before.len()
        } else {
            before.len() + 1
        }),
        forall|k: int| 0 <= k < before.len() && k != place ==> after[k] == before[k],
        after[place].url@ == key,
        after[place].kind == kind,
        place < before.len() ==> before[place].url@ == key,
        place == before.len() ==> !listed(before, key),
        match before_enabled {
            Some(i) => i < before.len(),
            None => true,
        },
        after_enabled == (if enabled {
            Some(place as usize)
        } else if before_enabled == Some(place as usize) {
            None
        } else {
            before_enabled
        }),
    ensures
        distinct(after),
        table_of(after, after_enabled) == (if enabled {
            all_disabled(table_of(before, before_enabled))
        } else {
            table_of(before, before_enabled)
        }).insert(key, (enabled, kind)),
{
    assert forall|k: int| 0 <= k < after.len() && k != place implies (#[trigger] after[k]).url@
        != key by {
        assert(after[k] == before[k]);
        if place < before.len() {
            if k < place {
                assert(before[k].url@ != before[place].url@);
            } else {
                assert(before[place].url@ != before[k].url@);
            }
        } else {
            assert(before[k].url@ == key ==> listed(before, key));
        }
    }
    assert forall|i: int, j: int| 0 <= i < j < after.len() implies (#[trigger] after[i]).url@ != (
    #[trigger] after[j]).url@ by {
        if i != place && j != place {
            assert(after[i] == before[i]);
            assert(after[j] == before[j]);
            assert(before[i].url@ != before[j].url@);
        }
    }
    let base = if enabled {
        all_disabled(table_of(before, before_enabled))
    } else {
        table_of(before, before_enabled)
    };
    let want = base.insert(key, (enabled, kind));
    let got = table_of(after, after_enabled);
    assert(after[place].url@ == key);
    lemma_position(after, place);
    assert forall|u: Seq<char>| got.dom().contains(u) <==> want.dom().contains(u) by {
        if listed(after, u) {
            lemma_listed_position(after, u);
            let k = position(after, u);
            if k != place {
                assert(before[k].url@ == u);
            }
        }
        if listed(before, u) {
            lemma_listed_position(before, u);
            let k = position(before, u);
            if k != place {
                assert(after[k].url@ == u);
            } else {
                assert(u == key);
            }
        }
    }
    assert forall|u: Seq<char>| got.dom().contains(u) implies #[trigger] got[u] == want[u] by {
        lemma_listed_position(after, u);
        let k = position(after, u);
        if u != key {
            assert(k != place);
            assert(before[k].url@ == u);
            lemma_position(before, k);
        }
    }
    assert(got =~= want);
}

/// The tile sources of a client and the directory of its cache.
#[derive(Debug, Clone)]
pub struct TileRequestClient {
    cache_dir: String,
    tile_web_origin: Vec<TileSource>,
    enabled: Option<usize>,
    tile_web_origin_changed: bool,
}

impl View for TileRequestClient {
    type V = SourceTable;

    closed spec fn view(&self) -> SourceTable {
        table_of(self.tile_web_origin@, self.enabled)
    }
}

impl TileRequestClient {
    /// The table lists no URL twice, and the enabled source is one of it.
    pub closed spec fn wf(&self) -> bool {
        &&& distinct(self.tile_web_origin@)
        &&& match self.enabled {
            Some(i) => i < self.tile_web_origin@.len(),
            None => true,
        }
    }

    /// The directory under which tiles are cached.
    pub closed spec fn cache_root(&self) -> Seq<char> {
        self.cache_dir@
    }

    /// The table of sources has changed since the flag was last cleared.
    pub closed spec fn changed(&self) -> bool {
        self.tile_web_origin_changed
    }

    /// In a well-formed client no two sources are enabled together.
    pub proof fn lemma_single_enabled(&self)
        requires
            self.wf(),
        ensures
            at_most_one_enabled(self@),
    {
        let list = self.tile_web_origin@;
        assert forall|a: Seq<char>, b: Seq<char>|
            self@.dom().contains(a) && self@.dom().contains(b) && (#[trigger] self@[a]).0 && (
            #[trigger] self@[b]).0 implies a == b by {
            lemma_listed_position(list, a);
            lemma_listed_position(list, b);
        }
    }

    /// A client without sources that caches under `cache_dir`.
    fn empty(cache_dir: String) -> (client: Self)
        ensures
            client.wf(),
            client@ == Map::<Seq<char>, (bool, TileType)>::empty(),
            client.cache_root() == cache_dir@,
            !client.changed(),
    {
        let client = TileRequestClient {
            cache_dir,
            tile_web_origin: Vec::new(),
            enabled: None,
            tile_web_origin_changed: false,
        };
        assert(client@ =~= Map::<Seq<char>, (bool, TileType)>::empty());
        client
    }

    fn with_builtin_sources(cache_dir: String) -> (client: Self)
        ensures
            client.wf(),
            client.cache_root() == cache_dir@,
            client@ == builtin_sources(),
            !client.changed(),
    {
        let mut me = Self::empty(cache_dir);
        me.add_tile_web_origin(
            String::from_str("https://tile.openstreetmap.org"),
            false,
            TileType::Raster,
        );
        let ghost first = me@;
        me.add_tile_web_origin(
            String::from_str("https://mt1.google.com/vt/lyrs=y"),
            true,
            TileType::Raster,
        );
        assert(all_disabled(first) =~= first);
        me.add_tile_web_origin(
            String::from_str("https://mt1.google.com/vt/lyrs=m"),
            false,
            TileType::Raster,
        );
        me.add_tile_web_origin(
            String::from_str("https://mt1.google.com/vt/lyrs=s"),
            false,
            TileType::Raster,
        );
        me.add_tile_web_origin(
            String::from_str("https://tiles.openfreemap.org/planet/20250122_001001_pt"),
            false,
            TileType::Vector,
        );
        me.tile_web_origin_changed = false;
        me
    }

    /// A client with the built-in sources that caches under `cache_dir`. With
    /// a starting URL, that source is the enabled one; a URL that is not
    /// among the built-in ones is added as a raster source.
    pub fn new(cache_dir: String, url: Option<String>) -> (client: Self)
        ensures
            client.wf(),
            client.cache_root() == cache_dir@,
            client@ == starting_sources(
                match url {
                    Some(u) => Some(u@),
                    None => None,
                },
            ),
            client.changed() == url.is_some(),
    {
        let mut me = Self::with_builtin_sources(cache_dir);
        if let Some(url) = url {
            if me.find(url.as_str()).is_some() {
                me.enable_tile_web_origin(url.as_str());
            } else {
                me.add_tile_web_origin(url, true, TileType::Raster);
            }
        }
        me
    }

    /// The place of `url` in the list of sources.
    fn find(&self, url: &str) -> (found: Option<usize>)
        requires
            self.wf(),
        ensures
            found.is_some() == self@.dom().contains(url@),
            found.is_some() == listed(self.tile_web_origin@, url@),
            match found {
                Some(i) => i < self.tile_web_origin@.len() && self.tile_web_origin@[i as int].url@
                    == url@ && position(self.tile_web_origin@, url@) == i,
                None => true,
            },
    {
        let target = String::from_str(url);
        let mut i: usize = 0;
        while i < self.tile_web_origin.len()
            invariant
                i <= self.tile_web_origin@.len(),
                target@ == url@,
                self.wf(),
                forall|k: int| 0 <= k < i ==> (#[trigger] self.tile_web_origin@[k]).url@ != url@,
            decreases self.tile_web_origin@.len() - i,
        {
            if self.tile_web_origin[i].url == target {
                proof {
                    lemma_position(self.tile_web_origin@, i as int);
                }
                return Some(i);
            }
            i = i + 1;
        }
        None
    }

    /// The directory under which tiles are cached.
    pub fn cache_dir(&self) -> (dir: &str)
        ensures
            dir@ == self.cache_root(),
    {
        self.cache_dir.as_str()
    }

    /// Tells whether the table of sources has changed since the flag was
    /// last cleared.
    pub fn tile_web_origin_changed(&self) -> (changed: bool)
        ensures
            changed == self.changed(),
    {
        self.tile_web_origin_changed
    }

    /// Sets or clears the flag that says that the table of sources has
    /// changed; the owner of the chunks clears it once it has started over.
    pub fn set_tile_web_origin_changed(&mut self, changed: bool)
        ensures
            final(self).changed() == changed,
            final(self)@ == old(self)@,
            final(self).wf() == old(self).wf(),
            final(self).cache_root() == old(self).cache_root(),
    {
        self.tile_web_origin_changed = changed;
    }

    /// Whether the source of `url` is enabled and what it delivers; `None`
    /// for a URL that the table does not hold.
    pub fn lookup(&self, url: &str) -> (entry: Option<(bool, TileType)>)
        requires
            self.wf(),
        ensures
            entry == (if self@.dom().contains(url@) {
                Some(self@[url@])
            } else {
                None
            }),
    {
        match self.find(url) {
            Some(i) => Some((self.enabled == Some(i), self.tile_web_origin[i].kind)),
            None => None,
        }
    }

    /// Adds a source, or replaces the source of the same URL. An enabled
    /// source takes the place of the one that was enabled before.
    pub fn add_tile_web_origin(&mut self, url: String, enabled: bool, tile_type: TileType)
        requires
            old(self).wf(),
        ensures
            final(self).wf(),
            final(self).cache_root() == old(self).cache_root(),
            final(self).changed(),
            final(self)@ == (if enabled {
                all_disabled(old(self)@)
            } else {
                old(self)@
            }).insert(url@, (enabled, tile_type)),
    {
        let ghost before = self.tile_web_origin@;
        let ghost before_enabled = self.enabled;
        let ghost key = url@;
        let found = self.find(url.as_str());
        self.tile_web_origin_changed = true;
        let place: usize = match found {
            Some(i) => {
                self.tile_web_origin.set(i, TileSource { url, kind: tile_type });
                i
            },
            None => {
                let end: usize = self.tile_web_origin.len();
                self.tile_web_origin.push(TileSource { url, kind: tile_type });
                end
            },
        };
        if enabled {
            self.enabled = Some(place);
        } else if self.enabled == Some(place) {
            self.enabled = None;
        }
        proof {
            lemma_table_after_put(
                before,
                before_enabled,
                self.tile_web_origin@,
                self.enabled,
                place as int,
                key,
                enabled,
                tile_type,
            );
        }
    }

    /// Enables the source of `url` in place of the one that was enabled
    /// before. A URL that the table does not hold changes nothing.
    pub fn enable_tile_web_origin(&mut self, url: &str)
        requires
            old(self).wf(),
        ensures
            final(self).wf(),
            final(self).cache_root() == old(self).cache_root(),
            old(self)@.dom().contains(url@) ==> final(self)@ == only_enabled(old(self)@, url@)
                && final(self).changed(),
            !old(self)@.dom().contains(url@) ==> final(self)@ == old(self)@ && final(self).changed() == old(self).changed(),
    {
        if let Some(i) = self.find(url) {
            self.tile_web_origin_changed = true;
            self.enabled = Some(i);
            proof {
                self.lemma_enabled_only(old(self)@, i as int, url@);
            }
        }
    }

    proof fn lemma_enabled_only(&self, before: SourceTable, i: int, url: Seq<char>)
        requires
            self.wf(),
            enabled_at(self.enabled, i),
            0 <= i < self.tile_web_origin@.len(),
            self.tile_web_origin@[i].url@ == url,
            before.dom() =~= self@.dom(),
            forall|u: Seq<char>| self@.dom().contains(u) ==> (#[trigger] before[u]).1 == self@[u].1,
        ensures
            self@ == only_enabled(before, url),
    {
        let list = self.tile_web_origin@;
        assert forall|u: Seq<char>| self@.dom().contains(u) implies #[trigger] self@[u]
            == only_enabled(before, url)[u] by {
            lemma_listed_position(list, u);
            lemma_position(list, i);
        }
        assert(self@ =~= only_enabled(before, url));
    }

    /// Disables every source.
    pub fn disable_all_tile_web_origins(&mut self)
        requires
            old(self).wf(),
        ensures
            final(self).wf(),
            final(self).cache_root() == old(self).cache_root(),
            final(self)@ == all_disabled(old(self)@),
            final(self).changed() == (old(self).changed()
                || !no_source(old(self)@)),
    {
        if self.tile_web_origin.len() > 0 {
            self.tile_web_origin_changed = true;
            assert(listed(self.tile_web_origin@, self.tile_web_origin@[0].url@));
            assert(old(self)@.dom().contains(self.tile_web_origin@[0].url@));
        }
        self.enabled = None;
        assert(self@ =~= all_disabled(old(self)@));
    }

    /// Disables every source, then enables the source of `url` if the table
    /// holds it.
    pub fn enable_only_tile_web_origin(&mut self, url: &str)
        requires
            old(self).wf(),
        ensures
            final(self).wf(),
            final(self).cache_root() == old(self).cache_root(),
            final(self)@ == (if old(self)@.dom().contains(url@) {
                only_enabled(old(self)@, url@)
            } else {
                all_disabled(old(self)@)
            }),
            final(self).changed() == (old(self).changed()
                || !no_source(old(self)@)),
    {
        self.disable_all_tile_web_origins();
        let ghost cleared = self@;
        if let Some(i) = self.find(url) {
            self.enabled = Some(i);
            proof {
                assert(self@.dom() =~= cleared.dom());
                assert forall|u: Seq<char>| self@.dom().contains(u) implies (
                #[trigger] old(self)@[u]).1 == self@[u].1 by {
                    assert(cleared[u].1 == old(self)@[u].1);
                }
                self.lemma_enabled_only(old(self)@, i as int, url@);
            }
        }
    }

    /// The enabled source, if there is one: its URL, the flag that it is
    /// enabled, and what it delivers.
    pub fn get_enabled_tile_web_origins(&self) -> (found: Option<(String, (bool, TileType))>)
        requires
            self.wf(),
        ensures
            match found {
                Some((url, (enabled, kind))) => enabled && self@.dom().contains(url@) && self@[url@]
                    == (true, kind),
                None => forall|u: Seq<char>| self@.dom().contains(u) ==> !(#[trigger] self@[u]).0,
            },
    {
        match self.enabled {
            Some(i) => {
                proof {
                    lemma_position(self.tile_web_origin@, i as int);
                }
                Some((self.tile_web_origin[i].url.clone(), (true, self.tile_web_origin[i].kind)))
            },
            None => None,
        }
    }
}

impl Default for TileRequestClient {
    /// A client with the built-in sources that caches under `cache`.
    fn default() -> (client: Self)
        ensures
            client.wf(),
            client.cache_root() == "cache"@,
            client@ == builtin_sources(),
            !client.changed(),
    {
        Self::with_builtin_sources(String::from_str("cache"))
    }
}

} // verus!
