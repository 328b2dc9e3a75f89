//! The settings table: a key/value store with upsert, and the logging
//! switch kept in it.
use vstd::prelude::*;
use crate::db::{Database, Setting, setting_keys_unique};
use crate::text::{owned, str_equal};

verus! {

/// The value stored under `key`, if any.
pub open spec fn setting_value(s: Seq<Setting>, key: Seq<char>) -> Option<String>
    decreases s.len(),
{
    if s.len() == 0 {
        None
    } else if s.last().key@ == key {
        Some(s.last().value)
    } else {
        setting_value(s.drop_last(), key)
    }
}

/// Position of the setting stored under `key`, or -1.
pub open spec fn setting_pos(s: Seq<Setting>, key: Seq<char>) -> int
    decreases s.len(),
{
    if s.len() == 0 {
        -1
    } else if s.last().key@ == key {
        s.len() - 1
    } else {
        setting_pos(s.drop_last(), key)
    }
}

proof fn lemma_setting_pos(s: Seq<Setting>, key: Seq<char>)
    ensures
        -1 <= setting_pos(s, key) < s.len(),
        setting_pos(s, key) >= 0 ==> s[setting_pos(s, key)].key@ == key && setting_value(s, key) == Some(
            s[setting_pos(s, key)].value,
        ),
        setting_pos(s, key) == -1 ==> setting_value(s, key) is None && forall|k: int|
            0 <= k < s.len() ==> (#[trigger] s[k]).key@ != key,
    decreases s.len(),
{
    if s.len() > 0 {
        lemma_setting_pos(s.drop_last(), key);
        if setting_pos(s, key) == -1 {
            assert forall|k: int| 0 <= k < s.len() implies (#[trigger] s[k]).key@ != key by {
                if k < s.len() - 1 {
                    assert(s.drop_last()[k] == s[k]);
                }
            }
        }
    }
}

proof fn lemma_setting_pos_found(s: Seq<Setting>, key: Seq<char>, k: int)
    requires
        setting_keys_unique(s),
        0 <= k < s.len(),
        s[k].key@ == key,
    ensures
        setting_pos(s, key) == k,
    decreases s.len(),
{
    if k < s.len() - 1 {
        assert(s.last().key@ != key);
        assert(setting_keys_unique(s.drop_last()));
        assert(s.drop_last()[k] == s[k]);
        lemma_setting_pos_found(s.drop_last(), key, k);
    }
}

/// Position of the setting stored under `key`.
fn setting_position(settings: &Vec<Setting>, key: &str) -> (r: Option<usize>)
    requires
        setting_keys_unique(settings@),
    ensures
        match r {
            Some(i) => i == setting_pos(settings@, key@),
            None => setting_pos(settings@, key@) == -1,
        },
{
    proof {
        lemma_setting_pos(settings@, key@);
    }
    let mut i: usize = 0;
    while i < settings.len()
        invariant
            i <= settings@.len(),
            setting_keys_unique(settings@),
            forall|k: int| 0 <= k < i ==> (#[trigger] settings@[k]).key@ != key@,
        decreases settings.len() - i,
    {
        if str_equal(settings[i].key.as_str(), key) {
            proof {
                lemma_setting_pos_found(settings@, key@, i as int);
            }
            return Some(i);
        }
        i = i + 1;
    }
    proof {
        if setting_pos(settings@, key@) >= 0 {
            let p = setting_pos(settings@, key@);
            assert(settings@[p].key@ == key@);
        }
    }
    None
}

/// The value stored under `key`, if any.
pub fn get_setting(db: &Database, key: &str) -> (r: Option<String>)
    requires
        db.wf(),
    ensures
        r == setting_value(db.settings@, key@),
{
    proof {
        lemma_setting_pos(db.settings@, key@);
    }
    match setting_position(&db.settings, key) {
        Some(i) => Some(db.settings[i].value.clone()),
        None => None,
    }
}

/// `b` holds `value` under `key` and reads as `a` under every other key.
pub open spec fn setting_stored(a: Database, b: Database, key: Seq<char>, value: Seq<char>) -> bool {
    &&& setting_value(b.settings@, key) matches Some(v) && v@ == value
    &&& forall|k: Seq<char>| k != key ==> setting_value(b.settings@, k) == setting_value(a.settings@, k)
}

/// A value written under a key is what reading that key gives back, and
/// every other key reads as it did before the write.
pub proof fn law_setting_reads_back(a: Database, b: Database, key: Seq<char>, value: Seq<char>, other: Seq<char>)
    requires
        setting_stored(a, b, key, value),
    ensures
        setting_value(b.settings@, key) matches Some(v) && v@ == value,
        other != key ==> setting_value(b.settings@, other) == setting_value(a.settings@, other),
{
}

/// The logging switch reads back as it was set: storing `true` turns it
/// on, storing `false` turns it off.
pub proof fn law_logging_switch_reads_back(a: Database, b: Database, enabled: bool)
    requires
        setting_stored(a, b, "logging_enabled"@, if enabled { "true"@ } else { "false"@ }),
    ensures
        logging_on(b) == enabled,
{
    reveal_strlit("true");
    reveal_strlit("false");
    if !enabled {
        assert("false"@[0] != "true"@[0]);
    }
}

/// Stores `value` under `key`, replacing what was there. Other keys and the
/// other tables are unchanged.
pub fn set_setting(db: &mut Database, key: &str, value: &str)
    requires
        old(db).wf(),
    ensures
        final(db).wf(),
        setting_stored(*old(db), *final(db), key@, value@),
        final(db).rooms@ == old(db).rooms@,
        final(db).racks@ == old(db).racks@,
        final(db).device_models@ == old(db).device_models@,
        final(db).devices@ == old(db).devices@,
        final(db).next_room_id == old(db).next_room_id,
        final(db).next_rack_id == old(db).next_rack_id,
        final(db).next_model_id == old(db).next_model_id,
        final(db).next_device_id == old(db).next_device_id,
{
    let entry = Setting { key: owned(key), value: owned(value) };
    let ghost os = db.settings@;
    proof {
        lemma_setting_pos(os, key@);
    }
    match setting_position(&db.settings, key) {
        Some(i) => {
            db.settings.set(i, entry);
            proof {
                let ns = db.settings@;
                assert forall|a: int, b: int| 0 <= a < ns.len() && 0 <= b < ns.len() && a != b implies ns[a].key@
                    != ns[b].key@ by {
                    if a != i && b != i {
                        assert(ns[a] == os[a] && ns[b] == os[b]);
                    } else if a == i {
                        assert(ns[b] == os[b]);
                        assert(os[i as int].key@ == key@);
                    } else {
                        assert(ns[a] == os[a]);
                        assert(os[i as int].key@ == key@);
                    }
                }
                assert forall|k: Seq<char>| k != key@ implies setting_value(ns, k) == setting_value(os, k) by {
                    lemma_setting_pos(os, k);
                    lemma_setting_pos(ns, k);
                    if setting_pos(os, k) >= 0 {
                        lemma_setting_pos_found(ns, k, setting_pos(os, k));
                    }
                    if setting_pos(ns, k) >= 0 {
                        lemma_setting_pos_found(os, k, setting_pos(ns, k));
                    }
                }
                lemma_setting_pos_found(ns, key@, i as int);
                lemma_setting_pos(ns, key@);
            }
        },
        None => {
            db.settings.push(entry);
            proof {
                let ns = db.settings@;
                lemma_setting_pos(os, key@);
                assert(ns.drop_last() =~= os);
                assert forall|k: Seq<char>| k != key@ implies setting_value(ns, k) == setting_value(os, k) by {}
            }
        },
    }
}

/// True when the logging switch is stored as `true`.
pub open spec fn logging_on(db: Database) -> bool {
    match setting_value(db.settings@, "logging_enabled"@) {
        Some(v) => v@ == "true"@,
        None => false,
    }
}

/// Whether logging is switched on (the setting `logging_enabled` reads
/// `true`).
pub fn is_logging_enabled(db: &Database) -> (r: bool)
    requires
        db.wf(),
    ensures
        r == logging_on(*db),
{
    match get_setting(db, "logging_enabled") {
        Some(v) => str_equal(v.as_str(), "true"),
        None => false,
    }
}

/// Switches logging on or off (stores `true` or `false`).
pub fn set_logging_enabled(db: &mut Database, enabled: bool)
    requires
        old(db).wf(),
    ensures
        final(db).wf(),
        logging_on(*final(db)) == enabled,
        setting_value(final(db).settings@, "logging_enabled"@) matches Some(v) && v@ == (if enabled {
            "true"@
        } else {
            "false"@
        }),
        forall|k: Seq<char>| k != "logging_enabled"@ ==> setting_value(final(db).settings@, k) == setting_value(
            old(db).settings@,
            k,
        ),
        final(db).rooms@ == old(db).rooms@,
        final(db).racks@ == old(db).racks@,
        final(db).device_models@ == old(db).device_models@,
        final(db).devices@ == old(db).devices@,
{
    proof {
        reveal_strlit("true");
        reveal_strlit("false");
    }
    let text: &str = if enabled { "true" } else { "false" };
    assert(text@ == (if enabled { "true"@ } else { "false"@ }));
    set_setting(db, "logging_enabled", text);
}

} // verus!
