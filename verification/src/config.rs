//! The flat key-value configuration document.
//!
//! One section header, an `autostart` flag that must be one of the two boolean
//! literals, and a `drivers` list of comma-joined executable paths. Parsing
//! and serializing work on the document text; reading and writing the file
//! itself is I/O and stays outside the crate. A line is `key=value`, cut at
//! the first `=`; section headers, empty lines and lines without `=` carry no
//! key, and the last occurrence of a key wins.

use vstd::prelude::*;

use crate::strutil::find_char;
use crate::strutil::join_with;
use crate::strutil::lemma_find_spec;
use crate::strutil::spec_find;
use crate::strutil::spec_join;
use crate::strutil::spec_split;
use crate::strutil::split_on;
use crate::strutil::str_eq;

verus! {

/// The single section header of the document.
pub open spec fn section_header() -> Seq<char> {
    "[indiserver]"@
}

/// The key of the autostart flag.
pub open spec fn autostart_key() -> Seq<char> {
    "autostart"@
}

/// The key of the driver list.
pub open spec fn drivers_key() -> Seq<char> {
    "drivers"@
}

/// The boolean literal a true autostart flag is written as.
pub open spec fn true_value() -> Seq<char> {
    "true"@
}

/// The boolean literal a false autostart flag is written as.
pub open spec fn false_value() -> Seq<char> {
    "false"@
}

/// The line separator of the document.
pub open spec fn newline() -> Seq<char> {
    "\n"@
}

/// The character a keyed line is cut at.
pub open spec fn equals_sign() -> Seq<char> {
    "="@
}

/// The mathematical shape of a configuration: the flag and the driver paths.
#[verifier::ext_equal]
pub ghost struct ConfigView {
    pub autostart: bool,
    pub drivers: Seq<Seq<char>>,
}

/// The key-value pairs the lines of a document carry, in order. A line whose
/// first character is `[` is a section header, and it and the empty line and
/// a line without `=` carry none; any other line is cut at its first `=`.
pub open spec fn spec_pairs(lines: Seq<Seq<char>>) -> Seq<(Seq<char>, Seq<char>)>
    decreases lines.len(),
{
    if lines.len() == 0 {
        Seq::<(Seq<char>, Seq<char>)>::empty()
    } else {
        let init = spec_pairs(lines.drop_last());
        let l = lines.last();
        if l.len() > 0 && l[0] != '[' {
            match spec_find(l, '=') {
                Some(p) => init.push((l.take(p), l.skip(p + 1))),
                None => init,
            }
        } else {
            init
        }
    }
}

/// The value of the last pair carrying `key`, if any.
pub open spec fn spec_lookup(pairs: Seq<(Seq<char>, Seq<char>)>, key: Seq<char>) -> Option<
    Seq<char>,
>
    decreases pairs.len(),
{
    if pairs.len() == 0 {
        None
    } else if pairs.last().0 == key {
        Some(pairs.last().1)
    } else {
        spec_lookup(pairs.drop_last(), key)
    }
}

/// The value recorded for `key` in the document `text`.
pub open spec fn spec_value_of(text: Seq<char>, key: Seq<char>) -> Option<Seq<char>> {
    spec_lookup(spec_pairs(spec_split(text, '\n')), key)
}

/// The driver paths a recorded `drivers` value stands for: none when the key
/// is absent or its value empty, else the comma-separated fields.
pub open spec fn spec_drivers_of(text: Seq<char>) -> Seq<Seq<char>> {
    match spec_value_of(text, drivers_key()) {
        None => Seq::<Seq<char>>::empty(),
        Some(v) => if v.len() == 0 {
            Seq::<Seq<char>>::empty()
        } else {
            spec_split(v, ',')
        },
    }
}

/// The configuration a document parses to, or `None` when the autostart flag
/// is absent or not one of the two boolean literals.
pub open spec fn spec_parse(text: Seq<char>) -> Option<ConfigView> {
    match spec_value_of(text, autostart_key()) {
        None => None,
        Some(v) => if v == true_value() {
            Some(ConfigView { autostart: true, drivers: spec_drivers_of(text) })
        } else if v == false_value() {
            Some(ConfigView { autostart: false, drivers: spec_drivers_of(text) })
        } else {
            None
        },
    }
}

/// The boolean literal the flag is written as.
pub open spec fn spec_bool_value(b: bool) -> Seq<char> {
    if b {
        true_value()
    } else {
        false_value()
    }
}

/// The document a configuration is written as.
pub open spec fn spec_serialize(c: ConfigView) -> Seq<char> {
    section_header() + newline() + autostart_key() + equals_sign() + spec_bool_value(c.autostart)
        + newline() + drivers_key() + equals_sign() + spec_join(c.drivers, ',') + newline()
}

/// The configuration a fresh document records: autostart off, no drivers.
pub open spec fn spec_default_config() -> ConfigView {
    ConfigView { autostart: false, drivers: Seq::<Seq<char>>::empty() }
}

/// Why a document was rejected at load time. Both are fatal to startup.
#[derive(Clone, Copy, PartialEq, Eq, Structural, Debug)]
pub enum ConfigError {
    /// The document carries no `autostart` key.
    MissingAutostart,
    /// The `autostart` value is neither boolean literal.
    InvalidAutostart,
}

/// A parsed configuration: the autostart flag and the driver paths.
#[derive(Clone, Debug)]
pub struct Config {
    autostart: bool,
    drivers: Vec<String>,
}

impl View for Config {
    type V = ConfigView;

    closed spec fn view(&self) -> ConfigView {
        ConfigView { autostart: self.autostart, drivers: self.drivers.deep_view() }
    }
}

impl Default for Config {
    /// The configuration a fresh document records.
    fn default() -> (r: Config)
        ensures
            r@ == spec_default_config(),
    {
        let r = Config { autostart: false, drivers: Vec::new() };
        proof {
            assert(r@.drivers =~= spec_default_config().drivers);
        }
        r
    }
}

impl Config {
    /// Parse a configuration document. Fails exactly when the autostart flag
    /// is absent or not one of the two boolean literals, and says which.
    pub fn new(text: &str) -> (r: Result<Config, ConfigError>)
        ensures
            r is Ok <==> spec_parse(text@) is Some,
            r matches Ok(c) ==> Some(c@) == spec_parse(text@),
            r matches Err(e) ==> (e == ConfigError::MissingAutostart <==> spec_value_of(
                text@,
                autostart_key(),
            ) is None),
            r matches Err(e) ==> (e == ConfigError::InvalidAutostart <==> (spec_value_of(
                text@,
                autostart_key(),
            ) matches Some(v) && v != true_value() && v != false_value())),
    {
        let lines = split_on(text, '\n');
        let ghost lviews = lines.deep_view();
        let mut autostart_val: Option<String> = None;
        let mut drivers_val: Option<String> = None;
        let mut idx: usize = 0;
        while idx < lines.len()
            invariant
                0 <= idx <= lines.len(),
                lviews == lines.deep_view(),
                lviews == spec_split(text@, '\n'),
                autostart_val.deep_view() == spec_lookup(
                    spec_pairs(lviews.take(idx as int)),
                    autostart_key(),
                ),
                drivers_val.deep_view() == spec_lookup(
                    spec_pairs(lviews.take(idx as int)),
                    drivers_key(),
                ),
            decreases lines.len() - idx,
        {
            let ghost prefix_pairs = spec_pairs(lviews.take(idx as int));
            proof {
                assert(lviews.take(idx + 1).drop_last() =~= lviews.take(idx as int));
                assert(lviews.take(idx + 1).last() == lviews[idx as int]);
            }
            let ls = lines[idx].as_str();
            proof {
                assert(ls@ == lviews[idx as int]);
            }
            if !ls.is_empty() && ls.get_char(0) != '[' {
                match find_char(ls, '=') {
                    None => {},
                    Some(p) => {
                        proof {
                            lemma_find_spec(ls@, '=');
                        }
                        let n = ls.unicode_len();
                        let key = ls.substring_char(0, p);
                        let value = ls.substring_char(p + 1, n);
                        proof {
                            assert(key@ =~= ls@.take(p as int));
                            assert(value@ =~= ls@.skip(p + 1));
                            assert(spec_pairs(lviews.take(idx + 1)) == prefix_pairs.push(
                                (key@, value@),
                            ));
                            assert(prefix_pairs.push((key@, value@)).drop_last()
                                =~= prefix_pairs);
                            reveal_strlit("autostart");
                            reveal_strlit("drivers");
                            assert(autostart_key().len() == 9);
                            assert(drivers_key().len() == 7);
                        }
                        if str_eq(key, "autostart") {
                            autostart_val = Some(String::from_str(value));
                        } else if str_eq(key, "drivers") {
                            drivers_val = Some(String::from_str(value));
                        }
                    },
                }
            }
            idx += 1;
        }
        proof {
            assert(lviews.take(lines.len() as int) =~= lviews);
        }
        let autostart: bool = match &autostart_val {
            None => {
                return Err(ConfigError::MissingAutostart);
            },
            Some(v) => {
                if str_eq(v.as_str(), "true") {
                    true
                } else if str_eq(v.as_str(), "false") {
                    false
                } else {
                    return Err(ConfigError::InvalidAutostart);
                }
            },
        };
        let drivers: Vec<String> = match &drivers_val {
            None => Vec::new(),
            Some(v) => {
                if v.as_str().is_empty() {
                    Vec::new()
                } else {
                    split_on(v.as_str(), ',')
                }
            },
        };
        let r = Config { autostart, drivers };
        proof {
            assert(r@.drivers =~= spec_drivers_of(text@));
        }
        Ok(r)
    }

    /// The autostart flag the document recorded.
    pub fn autostart(&self) -> (r: bool)
        ensures
            r == self@.autostart,
    {
        self.autostart
    }

    /// The driver paths the document recorded, in order.
    pub fn drivers(&self) -> (r: Vec<String>)
        ensures
            r.deep_view() == self@.drivers,
    {
        let r = self.drivers.clone();
        proof {
            assert(r.deep_view() =~= self.drivers.deep_view());
        }
        r
    }

    /// Overwrite the recorded driver list with the given paths; the autostart
    /// flag is kept.
    pub fn add_drivers_to_config(&mut self, drivers: &Vec<String>)
        ensures
            final(self)@.autostart == old(self)@.autostart,
            final(self)@.drivers == drivers.deep_view(),
    {
        let nd = drivers.clone();
        proof {
            assert(nd.deep_view() =~= drivers.deep_view());
        }
        self.drivers = nd;
    }

    /// Write the configuration back out as a document.
    pub fn to_text(&self) -> (r: String)
        ensures
            r@ == spec_serialize(self@),
    {
        let mut out = String::new();
        out.append("[indiserver]");
        out.append("\n");
        out.append("autostart");
        out.append("=");
        if self.autostart {
            out.append("true");
        } else {
            out.append("false");
        }
        out.append("\n");
        out.append("drivers");
        out.append("=");
        proof {
            reveal_strlit(",");
        }
        let joined = join_with(&self.drivers, ",");
        proof {
            assert(","@[0] == ',');
        }
        out.append(joined.as_str());
        out.append("\n");
        proof {
            assert(out@ =~= spec_serialize(self@));
        }
        out
    }
}

/// Relies on dirs::config_dir: the per-user configuration directory. The
/// result depends on the operating system and the environment, or is nothing
/// when the platform defines no such directory, so nothing is promised of it.
#[verifier::external_body]
fn user_config_dir() -> (r: Option<String>) {
    dirs::config_dir().map(|p| p.to_string_lossy().into_owned())
}

/// The configuration file location under the given base directory: a fixed
/// subfolder and file name joined onto it.
pub fn config_file_path_in(base: &str) -> (r: String)
    ensures
        r@ == base@ + "/indiserver_ui/config.ini"@,
{
    String::from_str(base).concat("/indiserver_ui/config.ini")
}

/// The configuration file location under the per-user configuration
/// directory, or nothing when the platform defines none.
pub fn config_file_path() -> (r: Option<String>)
    ensures
        r matches Some(p) ==> exists|base: Seq<char>|
            p@ == #[trigger] (base + "/indiserver_ui/config.ini"@),
{
    match user_config_dir() {
        None => None,
        Some(base) => {
            let p = config_file_path_in(base.as_str());
            proof {
                assert(p@ == base@ + "/indiserver_ui/config.ini"@);
            }
            Some(p)
        },
    }
}

/// A sequence none of whose characters is `c` does not contain `c`.
proof fn lemma_not_contains(s: Seq<char>, c: char)
    requires
        forall|i: int| 0 <= i < s.len() ==> s[i] != c,
    ensures
        !s.contains(c),
{
}

/// A concatenation contains a character only if one of its halves does.
proof fn lemma_concat_not_contains(a: Seq<char>, b: Seq<char>, c: char)
    requires
        !a.contains(c),
        !b.contains(c),
    ensures
        !(a + b).contains(c),
{
    if (a + b).contains(c) {
        let i = choose|i: int| 0 <= i < (a + b).len() && (a + b)[i] == c;
        if i < a.len() {
            assert(a[i] == c);
        } else {
            assert(b[i - a.len()] == c);
        }
    }
}

/// Saving then loading round-trips: the document written for a configuration
/// parses back to exactly that configuration. The format reserves the comma,
/// which joins the paths, and the newline, which ends a line, and writes an
/// empty list as an empty value, so each path must be nonempty and free of
/// both reserved characters.
pub proof fn lemma_save_load_round_trip(c: ConfigView)
    requires
        forall|i: int| 0 <= i < c.drivers.len() ==> (#[trigger] c.drivers[i]).len() > 0,
        forall|i: int| 0 <= i < c.drivers.len() ==> !(#[trigger] c.drivers[i]).contains(','),
        forall|i: int| 0 <= i < c.drivers.len() ==> !(#[trigger] c.drivers[i]).contains('\n'),
    ensures
        spec_parse(spec_serialize(c)) == Some(c),
{
    reveal_strlit("[indiserver]");
    reveal_strlit("autostart");
    reveal_strlit("drivers");
    reveal_strlit("true");
    reveal_strlit("false");
    reveal_strlit("\n");
    reveal_strlit("=");
    let text = spec_serialize(c);
    let bv = spec_bool_value(c.autostart);
    let dv = spec_join(c.drivers, ',');
    let l0 = section_header();
    let l1 = autostart_key() + equals_sign() + bv;
    let l2 = drivers_key() + equals_sign() + dv;
    let l3 = Seq::<char>::empty();
    let lines = seq![l0, l1, l2, l3];

    assert(newline() =~= seq!['\n']);
    assert(equals_sign() =~= seq!['=']);

    // The document is the four lines joined with the line separator.
    assert(lines.drop_last() =~= seq![l0, l1, l2]);
    assert(seq![l0, l1, l2].drop_last() =~= seq![l0, l1]);
    assert(seq![l0, l1].drop_last() =~= seq![l0]);
    assert(spec_join(seq![l0], '\n') == l0);
    assert(spec_join(seq![l0, l1], '\n') == spec_join(seq![l0], '\n') + seq!['\n'] + l1);
    assert(spec_join(seq![l0, l1, l2], '\n') == spec_join(seq![l0, l1], '\n') + seq!['\n'] + l2);
    assert(spec_join(lines, '\n') == spec_join(seq![l0, l1, l2], '\n') + seq!['\n'] + l3);
    assert(text =~= spec_join(lines, '\n'));

    // No line contains the separator, so splitting recovers the four lines.
    assert(!l0.contains('\n')) by {
        lemma_not_contains(l0, '\n');
    }
    assert(!autostart_key().contains('\n')) by {
        lemma_not_contains(autostart_key(), '\n');
    }
    assert(!drivers_key().contains('\n')) by {
        lemma_not_contains(drivers_key(), '\n');
    }
    assert(!equals_sign().contains('\n')) by {
        lemma_not_contains(equals_sign(), '\n');
    }
    assert(!bv.contains('\n')) by {
        lemma_not_contains(true_value(), '\n');
        lemma_not_contains(false_value(), '\n');
    }
    assert(!dv.contains('\n')) by {
        crate::strutil::lemma_join_no_char(c.drivers, ',', '\n');
    }
    lemma_concat_not_contains(autostart_key(), equals_sign(), '\n');
    lemma_concat_not_contains(autostart_key() + equals_sign(), bv, '\n');
    assert(l1 == (autostart_key() + equals_sign()) + bv);
    lemma_concat_not_contains(drivers_key(), equals_sign(), '\n');
    lemma_concat_not_contains(drivers_key() + equals_sign(), dv, '\n');
    assert(l2 == (drivers_key() + equals_sign()) + dv);
    assert(!l3.contains('\n'));
    assert(forall|i: int| 0 <= i < lines.len() ==> !(#[trigger] lines[i]).contains('\n'));
    crate::strutil::lemma_split_join(lines, '\n');
    assert(spec_split(text, '\n') == lines);

    // The section header and the empty trailing line carry no pair; the two
    // keyed lines are cut at their first equals sign.
    assert(!autostart_key().contains('=')) by {
        lemma_not_contains(autostart_key(), '=');
    }
    assert(!drivers_key().contains('=')) by {
        lemma_not_contains(drivers_key(), '=');
    }
    assert(l1 =~= autostart_key() + seq!['='] + bv);
    assert(l2 =~= drivers_key() + seq!['='] + dv);
    crate::strutil::lemma_find_at_key(autostart_key(), bv, '=');
    crate::strutil::lemma_find_at_key(drivers_key(), dv, '=');
    assert(spec_find(l1, '=') == Some(9int));
    assert(spec_find(l2, '=') == Some(7int));

    assert(l0[0] == '[');
    assert(l1[0] == 'a');
    assert(l2[0] == 'd');
    assert(l1.take(9) =~= autostart_key());
    assert(l1.skip(10) =~= bv);
    assert(l2.take(7) =~= drivers_key());
    assert(l2.skip(8) =~= dv);

    let pairs = spec_pairs(lines);
    let e0 = Seq::<(Seq<char>, Seq<char>)>::empty();
    assert(spec_pairs(Seq::<Seq<char>>::empty()) == e0);
    assert(seq![l0].drop_last() =~= Seq::<Seq<char>>::empty());
    assert(seq![l0].last() == l0);
    assert(spec_pairs(seq![l0]) == e0);
    assert(seq![l0, l1].last() == l1);
    assert((l1.take(9), l1.skip(10)) == (autostart_key(), bv));
    assert(spec_pairs(seq![l0, l1]) == e0.push((autostart_key(), bv)));
    assert(seq![l0, l1, l2].last() == l2);
    assert((l2.take(7), l2.skip(8)) == (drivers_key(), dv));
    assert(spec_pairs(seq![l0, l1, l2]) == e0.push((autostart_key(), bv)).push(
        (drivers_key(), dv),
    ));
    assert(lines.last() == l3);
    assert(l3.len() == 0);
    assert(pairs == e0.push((autostart_key(), bv)).push((drivers_key(), dv)));

    // The two keys differ, so each lookup finds its own line's value.
    assert(autostart_key().len() == 9);
    assert(drivers_key().len() == 7);
    assert(autostart_key() != drivers_key());
    assert(pairs.last() == (drivers_key(), dv));
    assert(spec_lookup(pairs, drivers_key()) == Some(dv));
    assert(pairs.drop_last() =~= e0.push((autostart_key(), bv)));
    assert(spec_lookup(e0.push((autostart_key(), bv)), autostart_key()) == Some(bv));
    assert(spec_lookup(pairs, autostart_key()) == Some(bv));
    assert(spec_value_of(text, autostart_key()) == Some(bv));
    assert(spec_value_of(text, drivers_key()) == Some(dv));

    // The recorded value parses back to the same driver list.
    if c.drivers.len() == 0 {
        assert(dv.len() == 0);
        assert(spec_drivers_of(text) =~= c.drivers);
    } else {
        crate::strutil::lemma_join_nonempty(c.drivers, ',');
        crate::strutil::lemma_split_join(c.drivers, ',');
        assert(spec_drivers_of(text) == c.drivers);
    }

    // The recorded literal parses back to the same flag.
    assert(true_value().len() == 4);
    assert(false_value().len() == 5);
    if c.autostart {
        assert(bv == true_value());
        assert(spec_parse(text) matches Some(p) && p =~= c);
    } else {
        assert(bv == false_value());
        assert(bv != true_value());
        assert(spec_parse(text) matches Some(p) && p =~= c);
    }
}

} // verus!
