//! Reading a collection's image file names, and linking each file to the
//! catalog card and printing it shows.

use vstd::prelude::*;
use vstd::hash_map::StringHashMap;
use crate::db_storage::{quote_sql_string, sql_quoted};
use crate::text::{
    chars_of, find_from, find_in, has_prefix, i64_to_decimal, int_decimal, lemma_find_from,
    lemma_pair_key_injective, pair_key,
    pair_key_of, slice_chars, str_eq, string_of,
};

verus! {

/// The last position of `c` in `s`.
pub open spec fn last_index_of(s: Seq<char>, c: char) -> Option<int>
    decreases s.len(),
{
    if s.len() == 0 {
        None
    } else if s.last() == c {
        Some(s.len() - 1)
    } else {
        last_index_of(s.drop_last(), c)
    }
}

/// The stem of a file name, as `Path::file_stem` gives it: the whole name when
/// it has no `.` past its first character, else the part before the last `.`.
pub open spec fn file_stem_of(name: Seq<char>) -> Seq<char> {
    match last_index_of(name, '.') {
        Some(d) => if d == 0 {
            name
        } else {
            name.take(d)
        },
        None => name,
    }
}

proof fn lemma_last_index_of(s: Seq<char>, c: char)
    ensures
        last_index_of(s, c) matches Some(d) ==> 0 <= d < s.len() && s[d] == c,
    decreases s.len(),
{
    if s.len() > 0 && s.last() != c {
        lemma_last_index_of(s.drop_last(), c);
    }
}

/// The stem of a file name: the name up to its last `.`, unless that `.` is
/// the first character.
pub fn file_stem(name: &Vec<char>) -> (stem: Vec<char>)
    ensures
        stem@ == file_stem_of(name@),
{
    let mut i = name.len();
    assert(name@.take(i as int) =~= name@);
    while i > 0 && name[i - 1] != '.'
        invariant
            i <= name.len(),
            last_index_of(name@, '.') == last_index_of(name@.take(i as int), '.'),
        decreases i,
    {
        assert(name@.take(i as int).drop_last() =~= name@.take(i - 1));
        i -= 1;
    }
    if i <= 1 {
        if i == 1 {
            assert(name@.take(1).last() == '.');
        } else {
            assert(name@.take(0).len() == 0);
        }
        slice_chars(name, 0, name.len())
    } else {
        assert(name@.take(i as int).last() == '.');
        let s = slice_chars(name, 0, i - 1);
        assert(s@ =~= name@.take(i - 1));
        s
    }
}

/// What an image file's name says: its card id, its printing (a pack or a
/// variant name), its part (`front` when unnamed), and whether it has a bleed.
pub struct ParsedName {
    pub card_id: Seq<char>,
    pub printing: Seq<char>,
    pub part: Seq<char>,
    pub has_bleed: bool,
}

/// The naming convention `{card_id}@{printing}[~{part}][.bleed].{ext}`:
/// exactly one `@`, at most one `~` after it.
pub open spec fn parse_stem_spec(stem: Seq<char>) -> Option<ParsedName> {
    let has_bleed = stem.len() >= 6 && stem.skip(stem.len() - 6) == ".bleed"@;
    let body = if has_bleed {
        stem.take(stem.len() - 6)
    } else {
        stem
    };
    match find_from(body, seq!['@'], 0) {
        None => None,
        Some(at) => {
            let card_id = body.take(at);
            let rest = body.skip(at + 1);
            if find_from(rest, seq!['@'], 0) is Some {
                None
            } else {
                match find_from(rest, seq!['~'], 0) {
                    Some(t) => {
                        let printing = rest.take(t);
                        let part = rest.skip(t + 1);
                        if find_from(part, seq!['~'], 0) is Some {
                            None
                        } else {
                            Some(
                                ParsedName {
                                    card_id: card_id,
                                    printing: printing,
                                    part: part,
                                    has_bleed: has_bleed,
                                },
                            )
                        }
                    },
                    None => Some(
                        ParsedName {
                            card_id: card_id,
                            printing: rest,
                            part: "front"@,
                            has_bleed: has_bleed,
                        },
                    ),
                }
            }
        },
    }
}

/// `c` occurs nowhere in `s`.
pub open spec fn lacks_char(s: Seq<char>, c: char) -> bool {
    forall|k: int| 0 <= k < s.len() ==> s[k] != c
}

/// `s` ends with `.bleed`.
pub open spec fn has_bleed_suffix(s: Seq<char>) -> bool {
    s.len() >= 6 && s.skip(s.len() - 6) == ".bleed"@
}

/// The file name the naming convention gives an image:
/// `{card_id}@{printing}[~{part}][.bleed].{ext}`.
pub open spec fn conventional_name(
    card_id: Seq<char>,
    printing: Seq<char>,
    part: Option<Seq<char>>,
    has_bleed: bool,
    ext: Seq<char>,
) -> Seq<char> {
    card_id + seq!['@'] + printing + match part {
        Some(p) => seq!['~'] + p,
        None => Seq::empty(),
    } + (if has_bleed {
        ".bleed"@
    } else {
        Seq::empty()
    }) + seq!['.'] + ext
}

proof fn lemma_find_char(s: Seq<char>, c: char, i: int, j: int)
    requires
        0 <= i <= j <= s.len(),
        forall|k: int| i <= k < j ==> s[k] != c,
        j < s.len() ==> s[j] == c,
    ensures
        find_from(s, seq![c], i) == (if j < s.len() {
            Some(j)
        } else {
            None::<int>
        }),
    decreases j - i,
{
    if i < j {
        if has_prefix(s.skip(i), seq![c]) {
            assert(s.skip(i).take(1)[0] == s[i]);
        }
        lemma_find_char(s, c, i + 1, j);
    } else if j < s.len() {
        assert(s.skip(j).take(1) =~= seq![c]);
    }
}

proof fn lemma_last_char(a: Seq<char>, c: char, b: Seq<char>)
    requires
        lacks_char(b, c),
    ensures
        last_index_of(a + seq![c] + b, c) == Some(a.len() as int),
    decreases b.len(),
{
    let s = a + seq![c] + b;
    if b.len() == 0 {
        assert(s.last() == c);
    } else {
        assert(s.last() == b.last());
        assert(s.drop_last() =~= a + seq![c] + b.drop_last());
        lemma_last_char(a, c, b.drop_last());
    }
}

/// A file named by the naming convention reads back as the card id,
/// printing, part (`front` when unnamed) and bleed flag it was named with,
/// when the card id holds no `@`, the printing and the part hold neither `@`
/// nor `~`, the extension holds no `.`, and a name without bleed does not
/// already end with `.bleed`.
pub proof fn conventional_names_read_back(
    card_id: Seq<char>,
    printing: Seq<char>,
    part: Option<Seq<char>>,
    has_bleed: bool,
    ext: Seq<char>,
)
    requires
        lacks_char(card_id, '@'),
        lacks_char(printing, '@'),
        lacks_char(printing, '~'),
        part matches Some(p) ==> lacks_char(p, '@') && lacks_char(p, '~'),
        lacks_char(ext, '.'),
        !has_bleed ==> !has_bleed_suffix(
            match part {
                Some(p) => p,
                None => printing,
            },
        ),
    ensures
        parse_stem_spec(file_stem_of(conventional_name(card_id, printing, part, has_bleed, ext)))
            == Some(
            ParsedName {
                card_id: card_id,
                printing: printing,
                part: match part {
                    Some(p) => p,
                    None => "front"@,
                },
                has_bleed: has_bleed,
            },
        ),
{
    reveal_strlit(".bleed");
    let tail = match part {
        Some(p) => seq!['~'] + p,
        None => Seq::<char>::empty(),
    };
    let base = card_id + seq!['@'] + printing + tail;
    let stem = base + (if has_bleed {
        ".bleed"@
    } else {
        Seq::<char>::empty()
    });
    let name = conventional_name(card_id, printing, part, has_bleed, ext);
    assert(name =~= stem + seq!['.'] + ext);
    lemma_last_char(stem, '.', ext);
    assert((stem + seq!['.'] + ext).take(stem.len() as int) =~= stem);
    assert(file_stem_of(name) == stem);
    if has_bleed {
        assert(stem.skip(stem.len() - 6) =~= ".bleed"@);
        assert(stem.take(stem.len() - 6) =~= base);
    } else {
        assert(stem =~= base);
        let seg = match part {
            Some(p) => p,
            None => printing,
        };
        let sep = match part {
            Some(_) => '~',
            None => '@',
        };
        assert(base =~= base.take(base.len() - seg.len()) + seg);
        assert(base[base.len() - seg.len() - 1] == sep);
        if base.len() >= 6 && base.skip(base.len() - 6) == ".bleed"@ {
            if seg.len() >= 6 {
                assert(base.skip(base.len() - 6) =~= seg.skip(seg.len() - 6));
            } else {
                let idx = 5 - seg.len();
                assert(base.skip(base.len() - 6)[idx] == base[base.len() - seg.len() - 1]);
                assert(".bleed"@[idx] != sep);
            }
        }
    }
    lemma_find_char(base, '@', 0, card_id.len() as int);
    let rest = base.skip(card_id.len() + 1int);
    assert(rest =~= printing + tail);
    lemma_find_char(rest, '@', 0, rest.len() as int);
    match part {
        Some(p) => {
            lemma_find_char(rest, '~', 0, printing.len() as int);
            assert(rest.take(printing.len() as int) =~= printing);
            assert(rest.skip(printing.len() + 1int) =~= p);
            lemma_find_char(p, '~', 0, p.len() as int);
        },
        None => {
            lemma_find_char(rest, '~', 0, rest.len() as int);
        },
    }
    assert(base.take(card_id.len() as int) =~= card_id);
}

pub open spec fn parsed_view(p: Option<(String, String, String, bool)>) -> Option<ParsedName> {
    match p {
        Some((c, pr, pt, b)) => Some(ParsedName { card_id: c@, printing: pr@, part: pt@, has_bleed: b }),
        None => None,
    }
}

fn ends_with_bleed(s: &Vec<char>) -> (res: bool)
    ensures
        res == (s@.len() >= 6 && s@.skip(s@.len() - 6) == ".bleed"@),
{
    proof {
        reveal_strlit(".bleed");
    }
    let suffix = chars_of(".bleed");
    if s.len() < 6 {
        return false;
    }
    let mut k: usize = 0;
    while k < 6
        invariant
            k <= 6,
            s.len() >= 6,
            suffix@ == ".bleed"@,
            suffix@.len() == 6,
            forall|j: int| 0 <= j < k ==> s@[s.len() - 6 + j] == suffix@[j],
        decreases 6 - k,
    {
        if s[s.len() - 6 + k] != suffix[k] {
            assert(s@.skip(s@.len() - 6)[k as int] != suffix@[k as int]);
            return false;
        }
        k += 1;
    }
    assert(s@.skip(s@.len() - 6) =~= suffix@);
    true
}

/// Splits an image file's name into card id, printing, part and bleed flag, or
/// `None` when the name does not follow the naming convention.
pub fn parse_filename(file_name: &str) -> (res: Option<(String, String, String, bool)>)
    ensures
        parsed_view(res) == parse_stem_spec(file_stem_of(file_name@)),
{
    let name = chars_of(file_name);
    let stem = file_stem(&name);
    let has_bleed = ends_with_bleed(&stem);
    let body = if has_bleed {
        slice_chars(&stem, 0, stem.len() - 6)
    } else {
        slice_chars(&stem, 0, stem.len())
    };
    assert(has_bleed ==> body@ =~= stem@.take(stem@.len() - 6));
    assert(!has_bleed ==> body@ =~= stem@);
    let at_sign: Vec<char> = vec!['@'];
    let tilde: Vec<char> = vec!['~'];
    assert(at_sign@ =~= seq!['@']);
    assert(tilde@ =~= seq!['~']);
    let at = match find_in(&body, &at_sign, 0) {
        Some(at) => at,
        None => return None,
    };
    proof {
        lemma_find_from(body@, at_sign@, 0, at as int);
    }
    let card_id = slice_chars(&body, 0, at);
    let rest = slice_chars(&body, at + 1, body.len());
    assert(card_id@ =~= body@.take(at as int));
    assert(rest@ =~= body@.skip(at + 1));
    if find_in(&rest, &at_sign, 0).is_some() {
        return None;
    }
    match find_in(&rest, &tilde, 0) {
        Some(t) => {
            proof {
                lemma_find_from(rest@, tilde@, 0, t as int);
            }
            let printing = slice_chars(&rest, 0, t);
            let part = slice_chars(&rest, t + 1, rest.len());
            assert(printing@ =~= rest@.take(t as int));
            assert(part@ =~= rest@.skip(t + 1));
            if find_in(&part, &tilde, 0).is_some() {
                return None;
            }
            Some((string_of(&card_id), string_of(&printing), string_of(&part), has_bleed))
        },
        None => Some(
            (string_of(&card_id), string_of(&rest), String::from_str("front"), has_bleed),
        ),
    }
}

} // verus!

verus! {

/// What a printing's own api id resolves to.
#[derive(Debug, Clone)]
pub struct PrintingMatch {
    pub version_id: String,
    pub card_api_id: String,
    pub pack_api_id: String,
}

/// A card and pack pair, by their api ids.
#[derive(Debug, Clone)]
pub struct CardPackKey {
    pub card_api_id: String,
    pub pack_api_id: String,
}

/// A catalog printing as the collection code reads it: its version id, the
/// api ids of its card and pack, and its own api id when the catalog has one.
#[derive(Debug, Clone)]
pub struct VersionRow {
    pub id: String,
    pub card_id: String,
    pub pack_id: String,
    pub api_id: Option<String>,
}

pub struct PrintingMatchView {
    pub version_id: Seq<char>,
    pub card_api_id: Seq<char>,
    pub pack_api_id: Seq<char>,
}

impl View for PrintingMatch {
    type V = PrintingMatchView;

    open spec fn view(&self) -> PrintingMatchView {
        PrintingMatchView {
            version_id: self.version_id@,
            card_api_id: self.card_api_id@,
            pack_api_id: self.pack_api_id@,
        }
    }
}

/// Printings by their own api id.
pub struct PrintingIndex {
    map: StringHashMap<PrintingMatch>,
}

impl View for PrintingIndex {
    type V = Map<Seq<char>, PrintingMatchView>;

    closed spec fn view(&self) -> Map<Seq<char>, PrintingMatchView> {
        Map::new(|k: Seq<char>| self.map@.contains_key(k), |k: Seq<char>| self.map@[k]@)
    }
}

impl PrintingIndex {
    pub fn new() -> (index: Self)
        ensures
            index@ == Map::<Seq<char>, PrintingMatchView>::empty(),
    {
        let index = PrintingIndex { map: StringHashMap::new() };
        assert(index@ =~= Map::<Seq<char>, PrintingMatchView>::empty());
        index
    }

    /// Files `m` under `printing_id`, replacing what was there.
    pub fn insert(&mut self, printing_id: String, m: PrintingMatch)
        ensures
            final(self)@ == old(self)@.insert(printing_id@, m@),
    {
        let ghost k = printing_id@;
        let ghost v = m@;
        self.map.insert(printing_id, m);
        assert(self@ =~= old(self)@.insert(k, v));
    }

    pub fn get(&self, printing_id: &str) -> (res: Option<&PrintingMatch>)
        ensures
            match res {
                Some(m) => self@.contains_key(printing_id@) && self@[printing_id@] == m@,
                None => !self@.contains_key(printing_id@),
            },
    {
        self.map.get(printing_id)
    }
}

/// Version ids by card and pack.
pub struct CardPackIndex {
    map: StringHashMap<String>,
}

impl View for CardPackIndex {
    type V = Map<(Seq<char>, Seq<char>), Seq<char>>;

    closed spec fn view(&self) -> Map<(Seq<char>, Seq<char>), Seq<char>> {
        Map::new(
            |k: (Seq<char>, Seq<char>)| self.map@.contains_key(pair_key_of(k.0, k.1)),
            |k: (Seq<char>, Seq<char>)| self.map@[pair_key_of(k.0, k.1)]@,
        )
    }
}

impl CardPackIndex {
    pub fn new() -> (index: Self)
        ensures
            index@ == Map::<(Seq<char>, Seq<char>), Seq<char>>::empty(),
    {
        let index = CardPackIndex { map: StringHashMap::new() };
        assert(index@ =~= Map::<(Seq<char>, Seq<char>), Seq<char>>::empty());
        index
    }

    /// Files `version_id` under the key's card and pack, replacing what was there.
    pub fn insert(&mut self, key: CardPackKey, version_id: String)
        ensures
            final(self)@ == old(self)@.insert((key.card_api_id@, key.pack_api_id@), version_id@),
    {
        let k = pair_key(key.card_api_id.as_str(), key.pack_api_id.as_str());
        let ghost v = version_id@;
        let ghost old_map = self.map@;
        self.map.insert(k, version_id);
        proof {
            let target = old(self)@.insert((key.card_api_id@, key.pack_api_id@), v);
            assert forall|q: (Seq<char>, Seq<char>)| #![auto] self@.contains_key(q) == target.contains_key(q) by {
                if pair_key_of(q.0, q.1) == k@ {
                    lemma_pair_key_injective(q.0, q.1, key.card_api_id@, key.pack_api_id@);
                }
            }
            assert forall|q: (Seq<char>, Seq<char>)| #![auto] self@.contains_key(q) implies self@[q] == target[q] by {
                if pair_key_of(q.0, q.1) == k@ {
                    lemma_pair_key_injective(q.0, q.1, key.card_api_id@, key.pack_api_id@);
                }
            }
            assert(self@ =~= target);
        }
    }

    pub fn get(&self, card_api_id: &str, pack_api_id: &str) -> (res: Option<&String>)
        ensures
            match res {
                Some(v) => self@.contains_key((card_api_id@, pack_api_id@)) && self@[(card_api_id@, pack_api_id@)] == v@,
                None => !self@.contains_key((card_api_id@, pack_api_id@)),
            },
    {
        let k = pair_key(card_api_id, pack_api_id);
        self.map.get(k.as_str())
    }

    pub fn contains(&self, card_api_id: &str, pack_api_id: &str) -> (res: bool)
        ensures
            res == self@.contains_key((card_api_id@, pack_api_id@)),
    {
        let k = pair_key(card_api_id, pack_api_id);
        self.map.contains_key(k.as_str())
    }
}

/// The card a file names and the catalog printing it shows, if any: a file
/// named by a printing's own id and that printing's pack is that printing of
/// its card; otherwise a card and pack pair the catalog prints is that printing;
/// otherwise a printing id names its card, with no printing; otherwise the
/// file's own card id stands, with no printing.
pub open spec fn resolution(
    card_id: Seq<char>,
    printing: Seq<char>,
    by_printing_id: Map<Seq<char>, PrintingMatchView>,
    by_card_pack: Map<(Seq<char>, Seq<char>), Seq<char>>,
) -> (Seq<char>, Option<Seq<char>>) {
    if by_printing_id.contains_key(card_id) && by_printing_id[card_id].pack_api_id == printing {
        (by_printing_id[card_id].card_api_id, Some(by_printing_id[card_id].version_id))
    } else if by_card_pack.contains_key((card_id, printing)) {
        (card_id, Some(by_card_pack[(card_id, printing)]))
    } else if by_printing_id.contains_key(card_id) {
        (by_printing_id[card_id].card_api_id, None)
    } else {
        (card_id, None)
    }
}

/// Resolves a filename's card_id and pack to a card id, and to a version id
/// when the pair names one exactly.
pub fn resolve_card_and_version(
    card_id: &str,
    parsed_printing: &str,
    by_printing_id: &PrintingIndex,
    by_card_pack: &CardPackIndex,
) -> (res: (String, Option<String>))
    ensures
        (res.0@, match res.1 {
            Some(v) => Some(v@),
            None => None,
        }) == resolution(card_id@, parsed_printing@, by_printing_id@, by_card_pack@),
{
    let printing_hit = by_printing_id.get(card_id);
    match printing_hit {
        Some(hit) => {
            if str_eq(hit.pack_api_id.as_str(), parsed_printing) {
                return (hit.card_api_id.clone(), Some(hit.version_id.clone()));
            }
        },
        None => {},
    }
    match by_card_pack.get(card_id, parsed_printing) {
        Some(version_id) => (String::from_str(card_id), Some(version_id.clone())),
        None => match printing_hit {
            Some(hit) => (hit.card_api_id.clone(), None),
            None => (String::from_str(card_id), None),
        },
    }
}

} // verus!

verus! {

pub open spec fn version_row_key(r: VersionRow) -> (Seq<char>, Seq<char>) {
    (r.card_id@, r.pack_id@)
}

/// Version ids by card and pack; the first row of a pair wins.
pub open spec fn card_pack_index_of(rows: Seq<VersionRow>) -> Map<(Seq<char>, Seq<char>), Seq<char>>
    decreases rows.len(),
{
    if rows.len() == 0 {
        Map::empty()
    } else {
        let m = card_pack_index_of(rows.drop_last());
        let r = rows.last();
        if m.contains_key(version_row_key(r)) {
            m
        } else {
            m.insert(version_row_key(r), r.id@)
        }
    }
}

/// Printings by their own api id, from the rows that have one; the first row
/// of an id wins.
pub open spec fn printing_index_of(rows: Seq<VersionRow>) -> Map<Seq<char>, PrintingMatchView>
    decreases rows.len(),
{
    if rows.len() == 0 {
        Map::empty()
    } else {
        let m = printing_index_of(rows.drop_last());
        let r = rows.last();
        match r.api_id {
            Some(p) => if m.contains_key(p@) {
                m
            } else {
                m.insert(
                    p@,
                    PrintingMatchView { version_id: r.id@, card_api_id: r.card_id@, pack_api_id: r.pack_id@ },
                )
            },
            None => m,
        }
    }
}

/// The two lookups a collection's files are linked through: version ids by card
/// and pack, and printings by their own api id.
pub fn index_versions(rows: &Vec<VersionRow>) -> (res: (CardPackIndex, PrintingIndex))
    ensures
        res.0@ == card_pack_index_of(rows@),
        res.1@ == printing_index_of(rows@),
{
    let mut by_card_pack = CardPackIndex::new();
    let mut by_printing_id = PrintingIndex::new();
    let mut i: usize = 0;
    while i < rows.len()
        invariant
            i <= rows.len(),
            by_card_pack@ == card_pack_index_of(rows@.take(i as int)),
            by_printing_id@ == printing_index_of(rows@.take(i as int)),
        decreases rows.len() - i,
    {
        let row = &rows[i];
        proof {
            assert(rows@.take(i + 1).drop_last() =~= rows@.take(i as int));
            assert(rows@.take(i + 1).last() == rows@[i as int]);
        }
        if !by_card_pack.contains(row.card_id.as_str(), row.pack_id.as_str()) {
            by_card_pack.insert(
                CardPackKey { card_api_id: row.card_id.clone(), pack_api_id: row.pack_id.clone() },
                row.id.clone(),
            );
        }
        match &row.api_id {
            Some(p) => {
                if by_printing_id.get(p.as_str()).is_none() {
                    by_printing_id.insert(
                        p.clone(),
                        PrintingMatch {
                            version_id: row.id.clone(),
                            card_api_id: row.card_id.clone(),
                            pack_api_id: row.pack_id.clone(),
                        },
                    );
                }
            },
            None => {},
        }
        i += 1;
    }
    assert(rows@.take(rows.len() as int) =~= rows@);
    (by_card_pack, by_printing_id)
}

proof fn lemma_printing_index_domain(rows: Seq<VersionRow>, a: Seq<char>)
    ensures
        printing_index_of(rows).contains_key(a) <==> exists|j: int|
            0 <= j < rows.len() && (#[trigger] rows[j].api_id matches Some(p) && p@ == a),
    decreases rows.len(),
{
    if rows.len() > 0 {
        let init = rows.drop_last();
        lemma_printing_index_domain(init, a);
        if exists|j: int| 0 <= j < rows.len() && (#[trigger] rows[j].api_id matches Some(p) && p@ == a) {
            let j = choose|j: int| 0 <= j < rows.len() && (#[trigger] rows[j].api_id matches Some(p) && p@ == a);
            if j < rows.len() - 1 {
                assert(init[j] == rows[j]);
            }
        }
        if exists|j: int| 0 <= j < init.len() && (#[trigger] init[j].api_id matches Some(p) && p@ == a) {
            let j = choose|j: int| 0 <= j < init.len() && (#[trigger] init[j].api_id matches Some(p) && p@ == a);
            assert(rows[j] == init[j]);
        }
    }
}

proof fn lemma_printing_index_first(rows: Seq<VersionRow>, i: int)
    requires
        0 <= i < rows.len(),
        rows[i].api_id is Some,
        forall|j: int|
            0 <= j < i ==> !(#[trigger] rows[j].api_id matches Some(p) && p@ == rows[i].api_id->0@),
    ensures
        printing_index_of(rows).contains_key(rows[i].api_id->0@),
        printing_index_of(rows)[rows[i].api_id->0@] == (PrintingMatchView {
            version_id: rows[i].id@,
            card_api_id: rows[i].card_id@,
            pack_api_id: rows[i].pack_id@,
        }),
    decreases rows.len(),
{
    let a = rows[i].api_id->0@;
    let init = rows.drop_last();
    if i == rows.len() - 1 {
        lemma_printing_index_domain(init, a);
        if printing_index_of(init).contains_key(a) {
            let j = choose|j: int| 0 <= j < init.len() && (#[trigger] init[j].api_id matches Some(p) && p@ == a);
            assert(rows[j] == init[j]);
        }
    } else {
        assert forall|j: int| 0 <= j < i implies !(#[trigger] init[j].api_id matches Some(p) && p@ == a) by {
            assert(init[j] == rows[j]);
        }
        assert(init[i] == rows[i]);
        lemma_printing_index_first(init, i);
    }
}

proof fn lemma_card_pack_index_domain(rows: Seq<VersionRow>, key: (Seq<char>, Seq<char>))
    ensures
        card_pack_index_of(rows).contains_key(key) <==> exists|j: int|
            0 <= j < rows.len() && #[trigger] version_row_key(rows[j]) == key,
    decreases rows.len(),
{
    if rows.len() > 0 {
        let init = rows.drop_last();
        lemma_card_pack_index_domain(init, key);
        if exists|j: int| 0 <= j < rows.len() && #[trigger] version_row_key(rows[j]) == key {
            let j = choose|j: int| 0 <= j < rows.len() && #[trigger] version_row_key(rows[j]) == key;
            if j < rows.len() - 1 {
                assert(init[j] == rows[j]);
            }
        }
        if exists|j: int| 0 <= j < init.len() && #[trigger] version_row_key(init[j]) == key {
            let j = choose|j: int| 0 <= j < init.len() && #[trigger] version_row_key(init[j]) == key;
            assert(rows[j] == init[j]);
        }
    }
}

proof fn lemma_card_pack_index_first(rows: Seq<VersionRow>, i: int)
    requires
        0 <= i < rows.len(),
        forall|j: int| 0 <= j < i ==> #[trigger] version_row_key(rows[j]) != version_row_key(rows[i]),
    ensures
        card_pack_index_of(rows).contains_key(version_row_key(rows[i])),
        card_pack_index_of(rows)[version_row_key(rows[i])] == rows[i].id@,
    decreases rows.len(),
{
    let key = version_row_key(rows[i]);
    let init = rows.drop_last();
    if i == rows.len() - 1 {
        lemma_card_pack_index_domain(init, key);
        if card_pack_index_of(init).contains_key(key) {
            let j = choose|j: int| 0 <= j < init.len() && #[trigger] version_row_key(init[j]) == key;
            assert(rows[j] == init[j]);
        }
    } else {
        assert forall|j: int| 0 <= j < i implies #[trigger] version_row_key(init[j]) != key by {
            assert(init[j] == rows[j]);
        }
        assert(init[i] == rows[i]);
        lemma_card_pack_index_first(init, i);
    }
}

/// A file named by a printing's own id, in that printing's pack, links to
/// that printing and to its card, when no earlier catalog row claims the id.
pub proof fn own_printing_id_links_to_its_printing(rows: Seq<VersionRow>, i: int)
    requires
        0 <= i < rows.len(),
        rows[i].api_id is Some,
        forall|j: int|
            0 <= j < i ==> !(#[trigger] rows[j].api_id matches Some(p) && p@ == rows[i].api_id->0@),
    ensures
        resolution(rows[i].api_id->0@, rows[i].pack_id@, printing_index_of(rows), card_pack_index_of(rows))
            == (rows[i].card_id@, Some(rows[i].id@)),
{
    lemma_printing_index_first(rows, i);
}

/// A file named by a card's id and one of its packs links to the first
/// catalog printing of that card in that pack, when the card's id is no
/// printing's own id.
pub proof fn card_and_pack_link_to_their_first_printing(rows: Seq<VersionRow>, i: int)
    requires
        0 <= i < rows.len(),
        forall|j: int| 0 <= j < i ==> #[trigger] version_row_key(rows[j]) != version_row_key(rows[i]),
        forall|j: int|
            0 <= j < rows.len() ==> !(#[trigger] rows[j].api_id matches Some(p) && p@ == rows[i].card_id@),
    ensures
        resolution(rows[i].card_id@, rows[i].pack_id@, printing_index_of(rows), card_pack_index_of(rows))
            == (rows[i].card_id@, Some(rows[i].id@)),
{
    lemma_card_pack_index_first(rows, i);
    lemma_printing_index_domain(rows, rows[i].card_id@);
}

pub open spec fn parsed_file_view(f: (String, String, String, bool)) -> ParsedName {
    ParsedName { card_id: f.0@, printing: f.1@, part: f.2@, has_bleed: f.3 }
}

/// Some file of the card and printing is its front.
pub open spec fn group_has_front(files: Seq<ParsedName>, card_id: Seq<char>, printing: Seq<char>) -> bool {
    exists|k: int|
        0 <= k < files.len() && #[trigger] files[k].card_id == card_id && files[k].printing == printing
            && files[k].part == "front"@
}

/// Checks that every card and printing a collection has files for has a
/// `front` image. On failure, names the first file's card and printing that
/// has auxiliary parts but no front.
pub fn check_fronts(files: &Vec<(String, String, String, bool)>) -> (res: Result<(), (String, String)>)
    ensures
        match res {
            Ok(()) => forall|i: int|
                0 <= i < files.len() ==> group_has_front(
                    files@.map_values(|f: (String, String, String, bool)| parsed_file_view(f)),
                    #[trigger] files@[i].0@,
                    files@[i].1@,
                ),
            Err((card_id, printing)) => exists|i: int|
                0 <= i < files.len() && #[trigger] files@[i].0@ == card_id@ && files@[i].1@ == printing@
                    && !group_has_front(
                    files@.map_values(|f: (String, String, String, bool)| parsed_file_view(f)),
                    card_id@,
                    printing@,
                ) && forall|j: int|
                    0 <= j < i ==> group_has_front(
                        files@.map_values(|f: (String, String, String, bool)| parsed_file_view(f)),
                        #[trigger] files@[j].0@,
                        files@[j].1@,
                    ),
        },
{
    let ghost parsed = files@.map_values(|f: (String, String, String, bool)| parsed_file_view(f));
    let mut fronts = vstd::hash_set::StringHashSet::new();
    let mut i: usize = 0;
    while i < files.len()
        invariant
            i <= files.len(),
            parsed == files@.map_values(|f: (String, String, String, bool)| parsed_file_view(f)),
            forall|key: Seq<char>|
                fronts@.contains(key) <==> exists|k: int|
                    0 <= k < i && #[trigger] pair_key_of(parsed[k].card_id, parsed[k].printing) == key
                        && parsed[k].part == "front"@,
        decreases files.len() - i,
    {
        let f = &files[i];
        let ghost old_fronts = fronts@;
        let is_front = str_eq(f.2.as_str(), "front");
        let key = pair_key(f.0.as_str(), f.1.as_str());
        if is_front {
            fronts.insert(key);
        }
        proof {
            assert(parsed[i as int] == parsed_file_view(files@[i as int]));
            assert(is_front == (parsed[i as int].part == "front"@));
            assert(pair_key_of(parsed[i as int].card_id, parsed[i as int].printing) == key@);
            assert(fronts@ == if is_front { old_fronts.insert(key@) } else { old_fronts });
            assert forall|key: Seq<char>|
                fronts@.contains(key) <==> exists|k: int|
                    0 <= k < i + 1 && #[trigger] pair_key_of(parsed[k].card_id, parsed[k].printing) == key
                        && parsed[k].part == "front"@ by {
                if exists|k: int|
                    0 <= k < i + 1 && #[trigger] pair_key_of(parsed[k].card_id, parsed[k].printing) == key
                        && parsed[k].part == "front"@ {
                    let k = choose|k: int|
                        0 <= k < i + 1 && #[trigger] pair_key_of(parsed[k].card_id, parsed[k].printing) == key
                            && parsed[k].part == "front"@;
                    if k < i {
                        assert(exists|k: int|
                            0 <= k < i && #[trigger] pair_key_of(parsed[k].card_id, parsed[k].printing) == key
                                && parsed[k].part == "front"@);
                    }
                }
            }
        }
        i += 1;
    }
    let mut i: usize = 0;
    while i < files.len()
        invariant
            i <= files.len(),
            parsed == files@.map_values(|f: (String, String, String, bool)| parsed_file_view(f)),
            forall|key: Seq<char>|
                fronts@.contains(key) <==> exists|k: int|
                    0 <= k < files.len() && #[trigger] pair_key_of(parsed[k].card_id, parsed[k].printing) == key
                        && parsed[k].part == "front"@,
            forall|j: int| 0 <= j < i ==> group_has_front(parsed, #[trigger] files@[j].0@, files@[j].1@),
        decreases files.len() - i,
    {
        let f = &files[i];
        let key = pair_key(f.0.as_str(), f.1.as_str());
        assert(parsed[i as int] == parsed_file_view(files@[i as int]));
        if !fronts.contains(key.as_str()) {
            proof {
                if group_has_front(parsed, f.0@, f.1@) {
                    let k = choose|k: int|
                        0 <= k < parsed.len() && #[trigger] parsed[k].card_id == f.0@ && parsed[k].printing == f.1@
                            && parsed[k].part == "front"@;
                    assert(pair_key_of(parsed[k].card_id, parsed[k].printing) == key@);
                }
            }
            return Err((f.0.clone(), f.1.clone()));
        }
        proof {
            let k = choose|k: int|
                0 <= k < files.len() && #[trigger] pair_key_of(parsed[k].card_id, parsed[k].printing) == key@
                    && parsed[k].part == "front"@;
            lemma_pair_key_injective(parsed[k].card_id, parsed[k].printing, f.0@, f.1@);
            assert(parsed[k].card_id == f.0@);
        }
        i += 1;
    }
    Ok(())
}

} // verus!

verus! {

/// The statement that records a newly added collection; the date is written
/// between single quotes as it stands.
pub open spec fn collection_insert_statement(
    id: i64,
    name: Seq<char>,
    game: Seq<char>,
    version: Seq<char>,
    language: Seq<char>,
    added_date: Seq<char>,
) -> Seq<char> {
    "INSERT INTO collections (id, name, game_id, version, language, added_date) VALUES ("@
        + int_decimal(id as int) + ", "@ + sql_quoted(name) + ", "@ + sql_quoted(game) + ", "@
        + sql_quoted(version) + ", "@ + sql_quoted(language) + ", '"@ + added_date + "')"@
}

pub fn collection_insert_sql(
    id: i64,
    name: &str,
    game: &str,
    version: &str,
    language: &str,
    added_date: &str,
) -> (sql: String)
    ensures
        sql@ == collection_insert_statement(id, name@, game@, version@, language@, added_date@),
{
    let mut sql = String::from_str(
        "INSERT INTO collections (id, name, game_id, version, language, added_date) VALUES (",
    );
    let id_text = i64_to_decimal(id);
    sql.append(id_text.as_str());
    sql.append(", ");
    let q_name = quote_sql_string(name);
    sql.append(q_name.as_str());
    sql.append(", ");
    let q_game = quote_sql_string(game);
    sql.append(q_game.as_str());
    sql.append(", ");
    let q_version = quote_sql_string(version);
    sql.append(q_version.as_str());
    sql.append(", ");
    let q_language = quote_sql_string(language);
    sql.append(q_language.as_str());
    sql.append(", '");
    sql.append(added_date);
    sql.append("')");
    assert(sql@ =~= collection_insert_statement(id, name@, game@, version@, language@, added_date@));
    sql
}

/// Whether a collection may be added: its game needs a catalog (some pack of
/// the game in the database), and no collection of its name may be there yet;
/// the catalog is checked first.
pub open spec fn admission(game: Seq<char>, name: Seq<char>, pack_count: int, already_added: bool) -> Result<(), Seq<char>> {
    if pack_count == 0 {
        Err("No catalog found for game '"@ + game + "'. Please run 'catalog update' first."@)
    } else if already_added {
        Err("Collection '"@ + name + "' has already been added."@)
    } else {
        Ok(())
    }
}

/// Decides whether a collection of `name` for `game` may be added, given how
/// many packs of the game the database holds and whether a collection of
/// that name is already there.
pub fn check_admission(game: &str, name: &str, pack_count: i64, already_added: bool) -> (res: Result<(), String>)
    ensures
        match res {
            Ok(()) => admission(game@, name@, pack_count as int, already_added) == Ok::<(), Seq<char>>(()),
            Err(msg) => admission(game@, name@, pack_count as int, already_added) == Err::<(), Seq<char>>(msg@),
        },
        res is Ok <==> (pack_count != 0 && !already_added),
        pack_count == 0 ==> (res matches Err(msg) && msg@ == "No catalog found for game '"@ + game@
            + "'. Please run 'catalog update' first."@),
        pack_count != 0 && already_added ==> (res matches Err(msg) && msg@ == "Collection '"@ + name@
            + "' has already been added."@),
{
    if pack_count == 0 {
        let mut msg = String::from_str("No catalog found for game '");
        msg.append(game);
        msg.append("'. Please run 'catalog update' first.");
        return Err(msg);
    }
    if already_added {
        let mut msg = String::from_str("Collection '");
        msg.append(name);
        msg.append("' has already been added.");
        return Err(msg);
    }
    Ok(())
}

/// `{game}_{card_api_id}`, the id a game's card has in the collection database.
pub open spec fn db_card_id_of(game: Seq<char>, card_api_id: Seq<char>) -> Seq<char> {
    game + "_"@ + card_api_id
}

/// `{game}/{collection}/{file_name}`, where a collection's image is stored.
pub open spec fn stored_file_path(game: Seq<char>, collection: Seq<char>, file_name: Seq<char>) -> Seq<char> {
    game + "/"@ + collection + "/"@ + file_name
}

/// The statement that records one image file as a printing: linked to its
/// catalog printing when it has one, else stored with its printing as a
/// free-form variant name.
pub open spec fn printing_insert_statement(
    id: i64,
    collection_id: i64,
    game: Seq<char>,
    collection: Seq<char>,
    file_name: Seq<char>,
    card_api_id: Seq<char>,
    version_id: Option<Seq<char>>,
    printing: Seq<char>,
    part: Seq<char>,
    has_bleed: bool,
) -> Seq<char> {
    let (version_sql, variant_sql) = match version_id {
        Some(v) => (sql_quoted(v), "NULL"@),
        None => ("NULL"@, sql_quoted(printing)),
    };
    "INSERT INTO printings (id, collection_id, card_id, version_id, variant, file_path, part, has_bleed) VALUES ("@
        + int_decimal(id as int) + ", "@ + int_decimal(collection_id as int) + ", "@ + sql_quoted(
        db_card_id_of(game, card_api_id),
    ) + ", "@ + version_sql + ", "@ + variant_sql + ", "@ + sql_quoted(
        stored_file_path(game, collection, file_name),
    ) + ", "@ + sql_quoted(part) + ", "@ + (if has_bleed {
        "TRUE"@
    } else {
        "FALSE"@
    }) + ")"@
}

pub fn printing_insert_sql(
    id: i64,
    collection_id: i64,
    game: &str,
    collection: &str,
    file_name: &str,
    card_api_id: &str,
    version_id: &Option<String>,
    printing: &str,
    part: &str,
    has_bleed: bool,
) -> (sql: String)
    ensures
        sql@ == printing_insert_statement(
            id,
            collection_id,
            game@,
            collection@,
            file_name@,
            card_api_id@,
            match version_id {
                Some(v) => Some(v@),
                None => None,
            },
            printing@,
            part@,
            has_bleed,
        ),
{
    let mut db_card_id = String::from_str(game);
    db_card_id.append("_");
    db_card_id.append(card_api_id);
    let mut file_path = String::from_str(game);
    file_path.append("/");
    file_path.append(collection);
    file_path.append("/");
    file_path.append(file_name);
    let (version_sql, variant_sql) = match version_id {
        Some(v) => (quote_sql_string(v.as_str()), String::from_str("NULL")),
        None => (String::from_str("NULL"), quote_sql_string(printing)),
    };
    let mut sql = String::from_str(
        "INSERT INTO printings (id, collection_id, card_id, version_id, variant, file_path, part, has_bleed) VALUES (",
    );
    let id_text = i64_to_decimal(id);
    sql.append(id_text.as_str());
    sql.append(", ");
    let collection_text = i64_to_decimal(collection_id);
    sql.append(collection_text.as_str());
    sql.append(", ");
    let quoted_card = quote_sql_string(db_card_id.as_str());
    sql.append(quoted_card.as_str());
    sql.append(", ");
    sql.append(version_sql.as_str());
    sql.append(", ");
    sql.append(variant_sql.as_str());
    sql.append(", ");
    let quoted_path = quote_sql_string(file_path.as_str());
    sql.append(quoted_path.as_str());
    sql.append(", ");
    let quoted_part = quote_sql_string(part);
    sql.append(quoted_part.as_str());
    sql.append(", ");
    sql.append(if has_bleed { "TRUE" } else { "FALSE" });
    sql.append(")");
    assert(sql@ =~= printing_insert_statement(
        id,
        collection_id,
        game@,
        collection@,
        file_name@,
        card_api_id@,
        match version_id {
            Some(v) => Some(v@),
            None => None,
        },
        printing@,
        part@,
        has_bleed,
    ));
    sql
}

} // verus!
