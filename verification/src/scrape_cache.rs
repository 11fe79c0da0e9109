//! A cache of scraped pages with a time to live, keyed by the hash of the
//! page address.

use crate::clock::system_seconds;
use crate::digest::compute_hash;
use crate::digest::spec_hash;
use crate::paths::with_suffix;
use crate::strmap::StrMap;
use vstd::prelude::*;
use vstd::string::StringExecFns;

verus! {

/// The default time to live: seven days, in seconds.
pub const DEFAULT_TTL_SECONDS: u64 = 604800;

/// The number of seconds in a day.
pub const SECONDS_PER_DAY: u64 = 86400;

/// Cache entry for a scraped address.
#[derive(Debug, Clone)]
pub struct CacheEntry {
    pub url: String,
    pub url_hash: String,
    pub content_hash: String,
    pub scraped_at: u64,
    pub page_title: Option<String>,
    pub images_count: usize,
    pub texts_count: usize,
}

/// Scraping cache for a project.
#[derive(Debug, Clone)]
pub struct ScrapeCache {
    pub project_id: String,
    pub base_url: String,
    pub entries: StrMap<CacheEntry>,
    pub created_at: u64,
    pub updated_at: u64,
    /// Time to live in seconds.
    pub ttl_seconds: u64,
}

/// Cache statistics.
#[derive(Debug, Clone, Copy)]
pub struct CacheStats {
    pub total_entries: usize,
    pub valid_entries: usize,
    pub expired_entries: usize,
    pub total_images: usize,
    pub total_texts: usize,
    pub last_updated: u64,
}

/// The key of an address or the fingerprint of a page: the content hash of
/// the UTF-8 encoding of the text.
pub open spec fn spec_hash_text(text: Seq<char>) -> Seq<char> {
    spec_hash(vstd::utf8::encode_utf8(text))
}

/// An entry scraped at `scraped_at` is still valid at `now`: its age, zero
/// if the clock went back, is below the time to live.
pub open spec fn is_fresh(scraped_at: u64, now: u64, ttl_seconds: u64) -> bool {
    (if now >= scraped_at {
        now - scraped_at
    } else {
        0
    }) < ttl_seconds
}

/// The test on a key for its entry to be still valid.
pub open spec fn key_is_fresh(entries: Map<Seq<char>, CacheEntry>, now: u64, ttl_seconds: u64) -> spec_fn(
    Seq<char>,
) -> bool {
    |k: Seq<char>| is_fresh(entries[k].scraped_at, now, ttl_seconds)
}

/// The number of still valid entries among the given ones.
pub open spec fn count_fresh(entries: Seq<CacheEntry>, now: u64, ttl_seconds: u64) -> int
    decreases entries.len(),
{
    if entries.len() == 0 {
        0
    } else {
        count_fresh(entries.drop_last(), now, ttl_seconds) + if is_fresh(
            entries.last().scraped_at,
            now,
            ttl_seconds,
        ) {
            1int
        } else {
            0int
        }
    }
}

/// The images counted over the given entries.
pub open spec fn sum_images(entries: Seq<CacheEntry>) -> int
    decreases entries.len(),
{
    if entries.len() == 0 {
        0
    } else {
        sum_images(entries.drop_last()) + entries.last().images_count
    }
}

/// The texts counted over the given entries.
pub open spec fn sum_texts(entries: Seq<CacheEntry>) -> int
    decreases entries.len(),
{
    if entries.len() == 0 {
        0
    } else {
        sum_texts(entries.drop_last()) + entries.last().texts_count
    }
}

/// The time stamp for a reading of the system clock: its whole seconds
/// since the Unix epoch, zero for a clock that stands before the epoch.
pub open spec fn spec_seconds_since_epoch(reading: Option<u64>) -> u64 {
    match reading {
        Some(seconds) => seconds,
        None => 0,
    }
}

/// The time stamp for a reading of the system clock, zero before the epoch.
#[verifier::when_used_as_spec(spec_seconds_since_epoch)]
pub fn seconds_since_epoch(reading: Option<u64>) -> (seconds: u64)
    ensures
        seconds == spec_seconds_since_epoch(reading),
{
    match reading {
        Some(seconds) => seconds,
        None => 0,
    }
}

/// The current time in whole seconds since the Unix epoch, zero before it.
/// It comes from the system clock, and every number of seconds is a
/// possible reading.
pub fn current_timestamp() -> (now: u64) {
    seconds_since_epoch(system_seconds())
}

fn fresh(scraped_at: u64, now: u64, ttl_seconds: u64) -> (r: bool)
    ensures
        r == is_fresh(scraped_at, now, ttl_seconds),
{
    let age: u64 = if now >= scraped_at {
        now - scraped_at
    } else {
        0
    };
    age < ttl_seconds
}

impl ScrapeCache {
    /// The map of entries is well formed.
    pub open spec fn wf(&self) -> bool {
        self.entries.wf()
    }

    /// `self` is `before` but for its entries and the stamp of its last
    /// update.
    pub open spec fn same_settings(&self, before: ScrapeCache) -> bool {
        &&& self.project_id == before.project_id
        &&& self.base_url == before.base_url
        &&& self.created_at == before.created_at
        &&& self.ttl_seconds == before.ttl_seconds
    }

    /// An empty cache created at `now`, with a time to live of seven days.
    pub fn new_at(project_id: &str, base_url: &str, now: u64) -> (cache: Self)
        ensures
            cache.wf(),
            cache.project_id@ == project_id@,
            cache.base_url@ == base_url@,
            cache.entries@ == Map::<Seq<char>, CacheEntry>::empty(),
            cache.created_at == now,
            cache.updated_at == now,
            cache.ttl_seconds == DEFAULT_TTL_SECONDS,
    {
        ScrapeCache {
            project_id: String::from_str(project_id),
            base_url: String::from_str(base_url),
            entries: StrMap::new(),
            created_at: now,
            updated_at: now,
            ttl_seconds: DEFAULT_TTL_SECONDS,
        }
    }

    /// An empty cache for a project, created now.
    pub fn new(project_id: &str, base_url: &str) -> (cache: Self)
        ensures
            cache.wf(),
            cache.project_id@ == project_id@,
            cache.base_url@ == base_url@,
            cache.entries@ == Map::<Seq<char>, CacheEntry>::empty(),
            cache.created_at == cache.updated_at,
            cache.ttl_seconds == DEFAULT_TTL_SECONDS,
    {
        ScrapeCache::new_at(project_id, base_url, current_timestamp())
    }

    /// Where the cache of a project is kept.
    pub fn cache_file_path(project_path: &str) -> (path: String)
        ensures
            path@ == project_path@ + "/_Inbox/.scrape_cache.json"@,
    {
        with_suffix(project_path, "/_Inbox/.scrape_cache.json")
    }

    /// The key of an address.
    pub fn hash_url(url: &str) -> (hash: String)
        ensures
            hash@ == spec_hash_text(url@),
    {
        compute_hash(url.as_bytes())
    }

    /// The fingerprint of a page.
    pub fn hash_content(content: &str) -> (hash: String)
        ensures
            hash@ == spec_hash_text(content@),
    {
        compute_hash(content.as_bytes())
    }

    /// An address is cached at `now`: it has an entry, and the entry is
    /// still valid then.
    pub open spec fn spec_is_cached_at(&self, url: Seq<char>, now: u64) -> bool {
        &&& self.entries@.contains_key(spec_hash_text(url))
        &&& is_fresh(self.entries@[spec_hash_text(url)].scraped_at, now, self.ttl_seconds)
    }

    /// Whether an address is cached and its entry is still valid at `now`.
    pub fn is_cached_at(&self, url: &str, now: u64) -> (cached: bool)
        requires
            self.wf(),
        ensures
            cached == self.spec_is_cached_at(url@, now),
    {
        let url_hash = ScrapeCache::hash_url(url);
        match self.entries.get(url_hash.as_str()) {
            Some(entry) => fresh(entry.scraped_at, now, self.ttl_seconds),
            None => false,
        }
    }

    /// Whether an address is cached and its entry is still valid now. An
    /// address that was never cached is not.
    ///
    /// The present second comes from the clock; whatever it is, the answer
    /// is that of `is_cached_at` for that second.
    pub fn is_cached(&self, url: &str) -> (cached: bool)
        requires
            self.wf(),
        ensures
            cached ==> self.entries@.contains_key(spec_hash_text(url@)),
            exists|now: u64| cached == #[trigger] self.spec_is_cached_at(url@, now),
    {
        let now = current_timestamp();
        let cached = self.is_cached_at(url, now);
        assert(cached == self.spec_is_cached_at(url@, now));
        cached
    }

    /// Whether a page must be scraped again: it is not cached, or its
    /// content differs from what the cache recorded.
    pub fn needs_rescrape(&self, url: &str, new_content: &str) -> (needed: bool)
        requires
            self.wf(),
        ensures
            needed <==> (!self.entries@.contains_key(spec_hash_text(url@))
                || self.entries@[spec_hash_text(url@)].content_hash@ != spec_hash_text(
                new_content@,
            )),
    {
        let url_hash = ScrapeCache::hash_url(url);
        match self.entries.get(url_hash.as_str()) {
            Some(entry) => {
                let new_hash = ScrapeCache::hash_content(new_content);
                entry.content_hash != new_hash
            },
            None => true,
        }
    }

    /// Adds or renews the entry of an address, scraped at `now`.
    pub fn set_at(
        &mut self,
        url: &str,
        content: &str,
        page_title: Option<String>,
        images_count: usize,
        texts_count: usize,
        now: u64,
    )
        requires
            old(self).wf(),
        ensures
            final(self).wf(),
            final(self).same_settings(*old(self)),
            final(self).updated_at == now,
            final(self).entries@.contains_key(spec_hash_text(url@)),
            final(self).entries@.remove(spec_hash_text(url@)) == old(self).entries@.remove(
                spec_hash_text(url@),
            ),
            final(self).entries@[spec_hash_text(url@)].url@ == url@,
            final(self).entries@[spec_hash_text(url@)].url_hash@ == spec_hash_text(url@),
            final(self).entries@[spec_hash_text(url@)].content_hash@ == spec_hash_text(content@),
            final(self).entries@[spec_hash_text(url@)].scraped_at == now,
            final(self).entries@[spec_hash_text(url@)].page_title == page_title,
            final(self).entries@[spec_hash_text(url@)].images_count == images_count,
            final(self).entries@[spec_hash_text(url@)].texts_count == texts_count,
    {
        let url_hash = ScrapeCache::hash_url(url);
        let content_hash = ScrapeCache::hash_content(content);
        let entry = CacheEntry {
            url: String::from_str(url),
            url_hash: url_hash.clone(),
            content_hash,
            scraped_at: now,
            page_title,
            images_count,
            texts_count,
        };
        self.entries.insert(url_hash, entry);
        self.updated_at = now;
        proof {
            assert(self.entries@.remove(spec_hash_text(url@)) =~= old(self).entries@.remove(
                spec_hash_text(url@),
            ));
        }
    }

    /// Adds or renews the entry of an address, scraped now.
    pub fn set(
        &mut self,
        url: &str,
        content: &str,
        page_title: Option<String>,
        images_count: usize,
        texts_count: usize,
    )
        requires
            old(self).wf(),
        ensures
            final(self).wf(),
            final(self).same_settings(*old(self)),
            final(self).entries@.contains_key(spec_hash_text(url@)),
            final(self).entries@.remove(spec_hash_text(url@)) == old(self).entries@.remove(
                spec_hash_text(url@),
            ),
            final(self).entries@[spec_hash_text(url@)].url@ == url@,
            final(self).entries@[spec_hash_text(url@)].content_hash@ == spec_hash_text(content@),
            final(self).entries@[spec_hash_text(url@)].scraped_at == final(self).updated_at,
            final(self).entries@[spec_hash_text(url@)].page_title == page_title,
            final(self).entries@[spec_hash_text(url@)].images_count == images_count,
            final(self).entries@[spec_hash_text(url@)].texts_count == texts_count,
    {
        self.set_at(url, content, page_title, images_count, texts_count, current_timestamp());
    }

    /// The entry of an address.
    pub fn get(&self, url: &str) -> (entry: Option<&CacheEntry>)
        requires
            self.wf(),
        ensures
            match entry {
                Some(e) => self.entries@.contains_key(spec_hash_text(url@)) && *e
                    == self.entries@[spec_hash_text(url@)],
                None => !self.entries@.contains_key(spec_hash_text(url@)),
            },
    {
        let url_hash = ScrapeCache::hash_url(url);
        self.entries.get(url_hash.as_str())
    }

    /// Removes every entry, at `now`.
    pub fn clear_at(&mut self, now: u64)
        ensures
            final(self).wf(),
            final(self).same_settings(*old(self)),
            final(self).entries@ == Map::<Seq<char>, CacheEntry>::empty(),
            final(self).updated_at == now,
    {
        self.entries.clear();
        self.updated_at = now;
    }

    /// Removes every entry.
    pub fn clear(&mut self)
        ensures
            final(self).wf(),
            final(self).same_settings(*old(self)),
            final(self).entries@ == Map::<Seq<char>, CacheEntry>::empty(),
    {
        self.clear_at(current_timestamp());
    }

    /// Removes the entries that are no longer valid at `now`. The entries
    /// that stay keep their order.
    pub fn cleanup_at(&mut self, now: u64)
        requires
            old(self).wf(),
        ensures
            final(self).wf(),
            final(self).same_settings(*old(self)),
            final(self).updated_at == now,
            final(self).entries.spec_keys() == old(self).entries.spec_keys().filter(
                key_is_fresh(old(self).entries@, now, old(self).ttl_seconds),
            ),
            forall|k: Seq<char>| #[trigger]
                final(self).entries@.contains_key(k) ==> old(self).entries@.contains_key(k)
                    && final(self).entries@[k] == old(self).entries@[k],
    {
        let ghost old_keys = self.entries.spec_keys();
        let ghost old_values = self.entries.spec_values();
        let ghost old_map = self.entries@;
        let ttl = self.ttl_seconds;
        let ghost test = key_is_fresh(old_map, now, ttl);
        let ghost mut j: int = 0;
        let mut i: usize = 0;
        proof {
            assert(old_keys.take(0).filter(test) =~= Seq::<Seq<char>>::empty()) by {
                old_keys.take(0).lemma_filter_len(test);
            }
            assert(old_keys.skip(0) =~= old_keys);
            assert forall|m: int| 0 <= m < old_keys.len() implies old_map.contains_key(
                #[trigger] old_keys[m],
            ) && old_values[m] == old_map[old_keys[m]] by {
                self.entries.lemma_entry(m);
            }
        }
        while i < self.entries.len()
            invariant
                self.wf(),
                self.same_settings(*old(self)),
                self.updated_at == old(self).updated_at,
                ttl == self.ttl_seconds,
                old_keys == old(self).entries.spec_keys(),
                old_map == old(self).entries@,
                test == key_is_fresh(old_map, now, ttl),
                0 <= j <= old_keys.len(),
                i == old_keys.take(j).filter(test).len(),
                self.entries.spec_keys() == old_keys.take(j).filter(test) + old_keys.skip(j),
                forall|m: int|
                    0 <= m < self.entries.spec_keys().len() ==> old_map.contains_key(
                        #[trigger] self.entries.spec_keys()[m],
                    ) && self.entries.spec_values()[m] == old_map[self.entries.spec_keys()[m]],
            decreases self.entries.spec_keys().len() - i,
        {
            let ghost done = old_keys.take(j).filter(test);
            proof {
                assert(self.entries.spec_keys()[i as int] == old_keys.skip(j)[0]);
                assert(j < old_keys.len());
                assert(old_keys.take(j + 1) =~= old_keys.take(j).push(old_keys[j]));
                old_keys.take(j).lemma_filter_push(old_keys[j], test);
                assert(old_keys.skip(j + 1) =~= old_keys.skip(j).drop_first());
            }
            let keep = fresh(self.entries.value_at(i).scraped_at, now, ttl);
            proof {
                assert(self.entries.spec_values()[i as int] == old_map[old_keys[j]]);
                assert(keep == test(old_keys[j]));
            }
            if keep {
                proof {
                    assert(self.entries.spec_keys() =~= done.push(old_keys[j]) + old_keys.skip(
                        j + 1,
                    ));
                    j = j + 1;
                }
                i = i + 1;
            } else {
                let ghost before_keys = self.entries.spec_keys();
                let ghost before_values = self.entries.spec_values();
                let _removed = self.entries.remove_at(i);
                proof {
                    assert(self.entries.spec_keys() =~= done + old_keys.skip(j + 1));
                    assert forall|m: int|
                        0 <= m < self.entries.spec_keys().len() implies old_map.contains_key(
                        #[trigger] self.entries.spec_keys()[m],
                    ) && self.entries.spec_values()[m] == old_map[self.entries.spec_keys()[m]] by {
                        let m0 = if m < i { m } else { m + 1 };
                        assert(self.entries.spec_keys()[m] == before_keys[m0]);
                        assert(self.entries.spec_values()[m] == before_values[m0]);
                    }
                    j = j + 1;
                }
            }
        }
        proof {
            assert(j == old_keys.len()) by {
                old_keys.take(j).lemma_filter_len(test);
                if j < old_keys.len() {
                    assert(self.entries.spec_keys().len() == i + (old_keys.len() - j));
                }
            }
            assert(old_keys.take(j) =~= old_keys);
            assert(old_keys.skip(j) =~= Seq::<Seq<char>>::empty());
            assert(self.entries.spec_keys() =~= old_keys.filter(test));
            assert forall|k: Seq<char>| #[trigger]
                self.entries@.contains_key(k) implies old_map.contains_key(k) && self.entries@[k]
                == old_map[k] by {
                self.entries.lemma_domain();
                let m = self.entries.spec_keys().index_of(k);
                self.entries.lemma_entry(m);
            }
        }
        self.updated_at = now;
    }

    /// `self` is `before` after the entries that are no longer valid at
    /// `now` were removed: the keys of the valid ones stay in their order,
    /// each with its entry as it was, and the cache is stamped with `now`.
    pub open spec fn is_swept_at(&self, before: ScrapeCache, now: u64) -> bool {
        &&& self.same_settings(before)
        &&& self.updated_at == now
        &&& self.entries.spec_keys() == before.entries.spec_keys().filter(
            key_is_fresh(before.entries@, now, before.ttl_seconds),
        )
        &&& forall|k: Seq<char>| #[trigger]
            self.entries@.contains_key(k) ==> before.entries@.contains_key(k) && self.entries@[k]
                == before.entries@[k]
    }

    /// Removes the entries that are no longer valid now.
    ///
    /// The present second comes from the clock; whatever it is, the cache
    /// is swept as `cleanup_at` sweeps it for that second.
    pub fn cleanup(&mut self)
        requires
            old(self).wf(),
        ensures
            final(self).wf(),
            final(self).same_settings(*old(self)),
            forall|k: Seq<char>| #[trigger]
                final(self).entries@.contains_key(k) ==> old(self).entries@.contains_key(k)
                    && final(self).entries@[k] == old(self).entries@[k],
            exists|now: u64| #[trigger] final(self).is_swept_at(*old(self), now),
    {
        let now = current_timestamp();
        self.cleanup_at(now);
        assert(self.is_swept_at(*old(self), now));
    }

    /// Statistics of the cache at `now`: how many entries there are, how
    /// many of them are still valid, and the images and texts counted over
    /// all of them. There are none when a count does not fit.
    pub fn stats_at(&self, now: u64) -> (stats: Option<CacheStats>)
        requires
            self.wf(),
        ensures
            stats is None <==> (sum_images(self.entries.spec_values()) > usize::MAX || sum_texts(
                self.entries.spec_values(),
            ) > usize::MAX),
            stats matches Some(s) ==> {
                &&& s.total_entries == self.entries.spec_values().len()
                &&& s.valid_entries == count_fresh(self.entries.spec_values(), now, self.ttl_seconds)
                &&& s.expired_entries == s.total_entries - s.valid_entries
                &&& s.total_images == sum_images(self.entries.spec_values())
                &&& s.total_texts == sum_texts(self.entries.spec_values())
                &&& s.last_updated == self.updated_at
            },
    {
        let count = self.entries.len();
        let mut valid: usize = 0;
        let mut images: u128 = 0;
        let mut texts: u128 = 0;
        let mut i: usize = 0;
        while i < count
            invariant
                i <= count,
                self.wf(),
                count == self.entries.spec_values().len(),
                valid <= i,
                valid == count_fresh(
                    self.entries.spec_values().take(i as int),
                    now,
                    self.ttl_seconds,
                ),
                images == sum_images(self.entries.spec_values().take(i as int)),
                texts == sum_texts(self.entries.spec_values().take(i as int)),
                images <= i * 0xffff_ffff_ffff_ffff,
                texts <= i * 0xffff_ffff_ffff_ffff,
            decreases count - i,
        {
            let entry = self.entries.value_at(i);
            proof {
                let all = self.entries.spec_values();
                assert(all.take(i + 1).drop_last() =~= all.take(i as int));
                assert(all.take(i + 1).last() == all[i as int]);
            }
            if fresh(entry.scraped_at, now, self.ttl_seconds) {
                valid = valid + 1;
            }
            images = images + entry.images_count as u128;
            texts = texts + entry.texts_count as u128;
            i = i + 1;
        }
        assert(self.entries.spec_values().take(i as int) =~= self.entries.spec_values());
        if images > usize::MAX as u128 || texts > usize::MAX as u128 {
            return None;
        }
        Some(
            CacheStats {
                total_entries: count,
                valid_entries: valid,
                expired_entries: count - valid,
                total_images: images as usize,
                total_texts: texts as usize,
                last_updated: self.updated_at,
            },
        )
    }

    /// Statistics of the cache now.
    pub fn stats(&self) -> (stats: Option<CacheStats>)
        requires
            self.wf(),
        ensures
            stats is None <==> (sum_images(self.entries.spec_values()) > usize::MAX || sum_texts(
                self.entries.spec_values(),
            ) > usize::MAX),
            stats matches Some(s) ==> {
                &&& s.total_entries == self.entries.spec_values().len()
                &&& s.expired_entries == s.total_entries - s.valid_entries
                &&& s.total_images == sum_images(self.entries.spec_values())
                &&& s.total_texts == sum_texts(self.entries.spec_values())
                &&& s.last_updated == self.updated_at
            },
    {
        self.stats_at(current_timestamp())
    }

    /// Sets the time to live in days. A number of days whose seconds do not
    /// fit in 64 bits is refused and the cache stays as it is. Tells whether
    /// the time to live was set.
    pub fn set_ttl_days(&mut self, days: u64) -> (set: bool)
        ensures
            set <==> days * SECONDS_PER_DAY <= u64::MAX,
            set ==> final(self).ttl_seconds == days * SECONDS_PER_DAY,
            !set ==> final(self).ttl_seconds == old(self).ttl_seconds,
            final(self).entries == old(self).entries,
            final(self).project_id == old(self).project_id,
            final(self).base_url == old(self).base_url,
            final(self).created_at == old(self).created_at,
            final(self).updated_at == old(self).updated_at,
    {
        if days <= 0xffff_ffff_ffff_ffff / SECONDS_PER_DAY {
            self.ttl_seconds = days * SECONDS_PER_DAY;
            true
        } else {
            false
        }
    }
}

} // verus!
