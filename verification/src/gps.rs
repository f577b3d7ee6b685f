use crate::assoc::{assoc_map, keys_unique, lemma_assoc_dom, lemma_assoc_get, lemma_assoc_insert, lemma_assoc_update};
use crate::error::SegyError;
use crate::synth::Coordinates;
use crate::text::{
    append_chars, chars_eq, chars_of, decimal, float_literal, is_float_literal, pieces_view, push_decimal,
    split, split_chars, string_of, trim, trim_chars, words, words_of, Sep,
};
use vstd::prelude::*;

verus! {

/// The six leading fields of a line of a station list, as text: the device
/// identifier, then longitude, latitude, elevation, UTM easting and UTM
/// northing, each of the last five a floating-point literal.
#[derive(Debug, Clone)]
pub struct GpsFields {
    pub device_id: String,
    pub longitude: String,
    pub latitude: String,
    pub elevation: String,
    pub utm_x: String,
    pub utm_y: String,
}

/// The six fields of a station, in the order of a line.
pub open spec fn gps_fields_view(g: GpsFields) -> Seq<Seq<char>> {
    seq![g.device_id@, g.longitude@, g.latitude@, g.elevation@, g.utm_x@, g.utm_y@]
}

/// Whether `g` holds, field by field, the first six words of `line`
/// (trimmed, split at white space): the device identifier is word 0, the
/// longitude word 1, the latitude word 2, the elevation word 3, the UTM
/// easting word 4 and the UTM northing word 5.
pub open spec fn fields_of_line(g: GpsFields, line: Seq<char>) -> bool {
    let f = words(trim(line), Sep::Space);
    &&& f.len() >= 6
    &&& g.device_id@ == f[0]
    &&& g.longitude@ == f[1]
    &&& g.latitude@ == f[2]
    &&& g.elevation@ == f[3]
    &&& g.utm_x@ == f[4]
    &&& g.utm_y@ == f[5]
}

/// The fields of each station of a list.
pub open spec fn stations_view(v: Seq<GpsFields>) -> Seq<Seq<Seq<char>>> {
    v.map_values(|g: GpsFields| gps_fields_view(g))
}

/// The names of the numeric fields, from the second field on.
pub open spec fn gps_value_name(i: int) -> Seq<char> {
    if i == 1 {
        "longitude"@
    } else if i == 2 {
        "latitude"@
    } else if i == 3 {
        "elevation"@
    } else if i == 4 {
        "utm_x"@
    } else {
        "utm_y"@
    }
}

/// The message for a line (numbered from 1) with too few fields.
pub open spec fn gps_count_message(line_no: nat, count: nat) -> Seq<char> {
    "GPS line "@ + decimal(line_no) + " has "@ + decimal(count) + " fields, expected at least 6"@
}

/// The message for a numeric field that is not a number.
pub open spec fn gps_value_message(line_no: nat, field: int) -> Seq<char> {
    "GPS line "@ + decimal(line_no) + ": invalid "@ + gps_value_name(field)
        + ": invalid float literal"@
}

/// The first of the numeric fields 1 to 5 that is not a floating-point
/// literal, looking from field `i` on.
pub open spec fn first_bad_value(f: Seq<Seq<char>>, i: int) -> Option<int>
    decreases 6 - i,
{
    if i >= 6 {
        None
    } else if !is_float_literal(f[i]) {
        Some(i)
    } else {
        first_bad_value(f, i + 1)
    }
}

/// Reading line `line_no` (numbered from 1) of a station list: trimmed,
/// an empty line is skipped; otherwise it splits at white space into at
/// least six fields whose second to sixth are numbers, and the first six
/// are kept.
pub open spec fn gps_line_result(line: Seq<char>, line_no: nat) -> Result<Option<Seq<Seq<char>>>, Seq<char>> {
    let t = trim(line);
    let f = words(t, Sep::Space);
    if t.len() == 0 {
        Ok(None)
    } else if f.len() < 6 {
        Err(gps_count_message(line_no, f.len()))
    } else {
        match first_bad_value(f, 1) {
            Some(i) => Err(gps_value_message(line_no, i)),
            None => Ok(Some(f.take(6))),
        }
    }
}

/// Reading the lines of a station list in order: the stations of the lines
/// that are not empty, or the message of the first line that fails.
pub open spec fn gps_lines_result(lines: Seq<Seq<char>>) -> Result<Seq<Seq<Seq<char>>>, Seq<char>>
    decreases lines.len(),
{
    if lines.len() == 0 {
        Ok(Seq::empty())
    } else {
        match gps_lines_result(lines.drop_last()) {
            Err(e) => Err(e),
            Ok(acc) => match gps_line_result(lines.last(), lines.len()) {
                Err(e) => Err(e),
                Ok(None) => Ok(acc),
                Ok(Some(f)) => Ok(acc.push(f)),
            },
        }
    }
}

/// A station list read from its text, split into lines at line feeds.
pub open spec fn gps_text_result(content: Seq<char>) -> Result<Seq<Seq<Seq<char>>>, Seq<char>> {
    gps_lines_result(split(content, Sep::Char('\n')))
}

proof fn lemma_error_stays(lines: Seq<Seq<char>>, k: int)
    requires
        0 <= k <= lines.len(),
        gps_lines_result(lines.take(k)) is Err,
    ensures
        gps_lines_result(lines) == gps_lines_result(lines.take(k)),
    decreases lines.len() - k,
{
    if k == lines.len() {
        assert(lines.take(k) =~= lines);
    } else {
        let r = lines.drop_last();
        assert(r.take(k) =~= lines.take(k));
        lemma_error_stays(r, k);
    }
}

fn first_bad(f: &Vec<Vec<char>>) -> (r: Option<usize>)
    requires
        f@.len() >= 6,
    ensures
        r matches Some(i) ==> first_bad_value(pieces_view(f@), 1) == Some(i as int),
        r is None ==> first_bad_value(pieces_view(f@), 1) is None,
{
    let ghost p = pieces_view(f@);
    let mut i: usize = 1;
    while i < 6
        invariant
            1 <= i <= 6,
            f@.len() >= 6,
            p == pieces_view(f@),
            first_bad_value(p, 1) == first_bad_value(p, i as int),
        decreases 6 - i,
    {
        assert(p[i as int] == f@[i as int]@);
        if !float_literal(f[i].as_slice()) {
            return Some(i);
        }
        i = i + 1;
    }
    None
}

fn push_str(out: &mut Vec<char>, s: &str)
    ensures
        final(out)@ == old(out)@ + s@,
{
    let c = chars_of(s);
    append_chars(out, c.as_slice());
}

fn value_name(i: usize) -> (s: &'static str)
    ensures
        s@ == gps_value_name(i as int),
{
    proof {
        reveal_strlit("longitude");
        reveal_strlit("latitude");
        reveal_strlit("elevation");
        reveal_strlit("utm_x");
        reveal_strlit("utm_y");
    }
    if i == 1 {
        "longitude"
    } else if i == 2 {
        "latitude"
    } else if i == 3 {
        "elevation"
    } else if i == 4 {
        "utm_x"
    } else {
        "utm_y"
    }
}

/// Reads line `line_no` (numbered from 1) of a station list.
fn read_gps_line(line: &[char], line_no: u64) -> (r: Result<Option<GpsFields>, Vec<char>>)
    ensures
        match r {
            Ok(None) => gps_line_result(line@, line_no as nat) == Ok::<
                Option<Seq<Seq<char>>>,
                Seq<char>,
            >(None),
            Ok(Some(g)) => gps_line_result(line@, line_no as nat) == Ok::<
                Option<Seq<Seq<char>>>,
                Seq<char>,
            >(Some(gps_fields_view(g))) && fields_of_line(g, line@),
            Err(e) => gps_line_result(line@, line_no as nat) == Err::<
                Option<Seq<Seq<char>>>,
                Seq<char>,
            >(e@),
        },
{
    proof {
        reveal_strlit("GPS line ");
        reveal_strlit(" has ");
        reveal_strlit(" fields, expected at least 6");
        reveal_strlit(": invalid ");
        reveal_strlit(": invalid float literal");
    }
    let t = trim_chars(line);
    if t.len() == 0 {
        return Ok(None);
    }
    let f = words_of(t.as_slice(), Sep::Space);
    let ghost fv = pieces_view(f@);
    if f.len() < 6 {
        let mut m: Vec<char> = Vec::new();
        push_str(&mut m, "GPS line ");
        push_decimal(&mut m, line_no);
        push_str(&mut m, " has ");
        push_decimal(&mut m, f.len() as u64);
        push_str(&mut m, " fields, expected at least 6");
        assert(m@ =~= gps_count_message(line_no as nat, fv.len()));
        return Err(m);
    }
    match first_bad(&f) {
        Some(i) => {
            let mut m: Vec<char> = Vec::new();
            push_str(&mut m, "GPS line ");
            push_decimal(&mut m, line_no);
            push_str(&mut m, ": invalid ");
            push_str(&mut m, value_name(i));
            push_str(&mut m, ": invalid float literal");
            assert(m@ =~= gps_value_message(line_no as nat, i as int));
            Err(m)
        },
        None => {
            let g = GpsFields {
                device_id: string_of(f[0].as_slice()),
                longitude: string_of(f[1].as_slice()),
                latitude: string_of(f[2].as_slice()),
                elevation: string_of(f[3].as_slice()),
                utm_x: string_of(f[4].as_slice()),
                utm_y: string_of(f[5].as_slice()),
            };
            assert(gps_fields_view(g) =~= fv.take(6));
            assert(fv == words(trim(line@), Sep::Space));
            assert(fields_of_line(g, line@));
            Ok(Some(g))
        },
    }
}

/// A station read from a line holds that line's words by position: when
/// reading line `line_no` gives the fields of `g`, `g` is made of the first
/// six words of the line, device identifier first, then longitude,
/// latitude, elevation, UTM easting and UTM northing, the last five of
/// them numbers.
pub proof fn lemma_gps_line_fields(line: Seq<char>, line_no: nat, g: GpsFields)
    requires
        gps_line_result(line, line_no) == Ok::<Option<Seq<Seq<char>>>, Seq<char>>(Some(gps_fields_view(g))),
    ensures
        fields_of_line(g, line),
        is_float_literal(g.longitude@),
        is_float_literal(g.latitude@),
        is_float_literal(g.elevation@),
        is_float_literal(g.utm_x@),
        is_float_literal(g.utm_y@),
{
    let f = words(trim(line), Sep::Space);
    assert(f.len() >= 6);
    assert(first_bad_value(f, 1) is None);
    assert(gps_fields_view(g) == f.take(6));
    assert(gps_fields_view(g)[2] == f[2]);
    assert(first_bad_value(f, 2) is None);
    assert(first_bad_value(f, 3) is None);
    assert(first_bad_value(f, 4) is None);
    assert(first_bad_value(f, 5) is None);
    assert(first_bad_value(f, 6) is None);
}

/// Each station of a list read line by line is the reading of one of its
/// lines (numbered from 1).
proof fn lemma_lines_stations(lines: Seq<Seq<char>>, acc: Seq<Seq<Seq<char>>>, k: int)
    requires
        gps_lines_result(lines) == Ok::<Seq<Seq<Seq<char>>>, Seq<char>>(acc),
        0 <= k < acc.len(),
    ensures
        exists|j: int|
            0 <= j < lines.len() && #[trigger] gps_line_result(lines[j], (j + 1) as nat) == Ok::<
                Option<Seq<Seq<char>>>,
                Seq<char>,
            >(Some(acc[k])),
    decreases lines.len(),
{
    let r = lines.drop_last();
    let prev = gps_lines_result(r)->Ok_0;
    let j = lines.len() - 1;
    assert(lines.last() == lines[j]);
    if k < prev.len() {
        lemma_lines_stations(r, prev, k);
        let i = choose|i: int|
            0 <= i < r.len() && #[trigger] gps_line_result(r[i], (i + 1) as nat) == Ok::<
                Option<Seq<Seq<char>>>,
                Seq<char>,
            >(Some(prev[k]));
        assert(r[i] == lines[i]);
        match gps_line_result(lines.last(), lines.len()) {
            Ok(Some(f)) => assert(acc[k] == prev[k]),
            _ => {},
        }
        assert(gps_line_result(lines[i], (i + 1) as nat) == Ok::<Option<Seq<Seq<char>>>, Seq<char>>(Some(acc[k])));
    } else {
        assert(gps_line_result(lines[j], (j + 1) as nat) == Ok::<Option<Seq<Seq<char>>>, Seq<char>>(Some(acc[k])));
    }
}

/// Every station read from a list holds the words of one of its lines by
/// position: device identifier, longitude, latitude, elevation, UTM easting
/// and UTM northing, in that order.
pub proof fn lemma_gps_text_fields(content: Seq<char>, v: Seq<GpsFields>, k: int)
    requires
        gps_text_result(content) == Ok::<Seq<Seq<Seq<char>>>, Seq<char>>(stations_view(v)),
        0 <= k < v.len(),
    ensures
        exists|j: int|
            0 <= j < split(content, Sep::Char('\n')).len() && #[trigger] fields_of_line(
                v[k],
                split(content, Sep::Char('\n'))[j],
            ),
{
    let lines = split(content, Sep::Char('\n'));
    lemma_lines_stations(lines, stations_view(v), k);
    let j = choose|j: int|
        0 <= j < lines.len() && #[trigger] gps_line_result(lines[j], (j + 1) as nat) == Ok::<
            Option<Seq<Seq<char>>>,
            Seq<char>,
        >(Some(stations_view(v)[k]));
    assert(stations_view(v)[k] == gps_fields_view(v[k]));
    lemma_gps_line_fields(lines[j], (j + 1) as nat, v[k]);
}

/// Reads line `line_no` (numbered from 1) of a station list (see
/// `gps_line_result`): `None` for an empty line, the station's fields, or
/// a `Parse` error naming the line.
pub fn parse_gps_line(line: &str, line_no: u64) -> (r: Result<Option<GpsFields>, SegyError>)
    ensures
        match gps_line_result(line@, line_no as nat) {
            Ok(None) => r matches Ok(None),
            Ok(Some(f)) => r matches Ok(Some(g)) && gps_fields_view(g) == f && fields_of_line(g, line@),
            Err(m) => r matches Err(e) && e matches SegyError::Parse(t) && t@ == m,
        },
{
    let c = chars_of(line);
    match read_gps_line(c.as_slice(), line_no) {
        Ok(x) => Ok(x),
        Err(m) => Err(SegyError::Parse(string_of(m.as_slice()))),
    }
}

/// Reads a station list from its text: one station per line that is not
/// empty, as six fields split at white space (further fields are ignored),
/// the last five of them numbers. The first line that fails ends the
/// reading with a `Parse` error naming it (numbered from 1).
pub fn parse_gps_text(content: &str) -> (r: Result<Vec<GpsFields>, SegyError>)
    ensures
        match r {
            Ok(v) => gps_text_result(content@) == Ok::<Seq<Seq<Seq<char>>>, Seq<char>>(
                stations_view(v@),
            ),
            Err(e) => e matches SegyError::Parse(m) && gps_text_result(content@) == Err::<
                Seq<Seq<Seq<char>>>,
                Seq<char>,
            >(m@),
        },
{
    let cs = chars_of(content);
    let lines = split_chars(cs.as_slice(), Sep::Char('\n'));
    let ghost lv = pieces_view(lines@);
    let mut out: Vec<GpsFields> = Vec::new();
    let mut i: usize = 0;
    assert(lv.take(0) =~= Seq::<Seq<char>>::empty());
    assert(stations_view(out@) =~= Seq::<Seq<Seq<char>>>::empty());
    while i < lines.len()
        invariant
            i <= lines@.len(),
            lv == pieces_view(lines@),
            lv == split(cs@, Sep::Char('\n')),
            cs@ == content@,
            gps_lines_result(lv.take(i as int)) == Ok::<Seq<Seq<Seq<char>>>, Seq<char>>(
                stations_view(out@),
            ),
        decreases lines.len() - i,
    {
        proof {
            assert(lv.take(i + 1).drop_last() =~= lv.take(i as int));
            assert(lv.take(i + 1).last() == lines@[i as int]@);
        }
        match read_gps_line(lines[i].as_slice(), (i + 1) as u64) {
            Ok(None) => {},
            Ok(Some(g)) => {
                let ghost before = stations_view(out@);
                out.push(g);
                assert(stations_view(out@) =~= before.push(gps_fields_view(g)));
            },
            Err(m) => {
                proof {
                    lemma_error_stays(lv, i + 1);
                }
                return Err(SegyError::Parse(string_of(m.as_slice())));
            },
        }
        i = i + 1;
    }
    assert(lv.take(lv.len() as int) =~= lv);
    Ok(out)
}


/// The stations' coordinates by device: each device once, in the order in
/// which devices first appear.
#[derive(Debug)]
pub struct GpsTable {
    pub entries: Vec<(String, Coordinates)>,
}

/// A list of (device, coordinates) pairs with devices viewed as text.
pub open spec fn coord_pairs(v: Seq<(String, Coordinates)>) -> Seq<(Seq<char>, Coordinates)> {
    v.map_values(|e: (String, Coordinates)| (e.0@, e.1))
}

impl GpsTable {
    /// Each device at most once.
    pub open spec fn wf(&self) -> bool {
        keys_unique(coord_pairs(self.entries@))
    }

    /// The coordinates of each device.
    pub open spec fn map(&self) -> Map<Seq<char>, Coordinates> {
        assoc_map(coord_pairs(self.entries@))
    }

    /// The coordinates of `device`, if the table has them.
    pub fn get(&self, device: &str) -> (r: Option<Coordinates>)
        requires
            self.wf(),
        ensures
            r == (if self.map().contains_key(device@) { Some(self.map()[device@]) } else { None }),
    {
        let ghost pairs = coord_pairs(self.entries@);
        let dc = chars_of(device);
        let mut j: usize = 0;
        while j < self.entries.len()
            invariant
                dc@ == device@,
                pairs == coord_pairs(self.entries@),
                keys_unique(pairs),
                j <= self.entries@.len(),
                forall|k: int| 0 <= k < j ==> pairs[k].0 != device@,
            decreases self.entries.len() - j,
        {
            let ec = chars_of(self.entries[j].0.as_str());
            assert(ec@ == pairs[j as int].0);
            if chars_eq(ec.as_slice(), dc.as_slice()) {
                proof {
                    lemma_assoc_get(pairs, j as int);
                }
                return Some(self.entries[j].1);
            }
            j = j + 1;
        }
        proof {
            lemma_assoc_dom(pairs, device@);
        }
        None
    }

    fn upsert(&mut self, dev: String, c: Coordinates)
        requires
            old(self).wf(),
        ensures
            final(self).wf(),
            final(self).map() == old(self).map().insert(dev@, c),
    {
        let ghost old_pairs = coord_pairs(self.entries@);
        let mut j: usize = 0;
        while j < self.entries.len()
            invariant
                *self == *old(self),
                old_pairs == coord_pairs(self.entries@),
                keys_unique(old_pairs),
                j <= self.entries@.len(),
                forall|k: int| 0 <= k < j ==> old_pairs[k].0 != dev@,
            decreases self.entries.len() - j,
        {
            if self.entries[j].0 == dev {
                proof {
                    assert(old_pairs[j as int].0 == dev@);
                    lemma_assoc_update(old_pairs, j as int, c);
                }
                let ghost dv = dev@;
                self.entries.set(j, (dev, c));
                assert(coord_pairs(self.entries@) =~= old_pairs.update(j as int, (dv, c)));
                return;
            }
            j = j + 1;
        }
        proof {
            lemma_assoc_insert(old_pairs, old_pairs.len() as int, dev@, c);
            assert(old_pairs.insert(old_pairs.len() as int, (dev@, c)) =~= old_pairs.push((dev@, c)));
        }
        let ghost dv = dev@;
        self.entries.push((dev, c));
        assert(coord_pairs(self.entries@) =~= old_pairs.push((dv, c)));
    }
}

/// The stations by device, a later station of a device replacing an
/// earlier one.
pub fn gps_to_map(stations: Vec<(String, Coordinates)>) -> (t: GpsTable)
    ensures
        t.wf(),
        t.map() == assoc_map(coord_pairs(stations@)),
{
    let ghost all = coord_pairs(stations@);
    let mut t = GpsTable { entries: Vec::new() };
    proof {
        assert(coord_pairs(t.entries@) =~= Seq::<(Seq<char>, Coordinates)>::empty());
        assert(all.take(0) =~= Seq::<(Seq<char>, Coordinates)>::empty());
    }
    for e in it: stations
        invariant
            all == coord_pairs(it.seq()),
            t.wf(),
            t.map() == assoc_map(all.take(it.index())),
    {
        let ghost i = it.index();
        proof {
            assert(all.take(i + 1).drop_last() =~= all.take(i));
            assert(all.take(i + 1).last() == (e.0@, e.1));
        }
        let (dev, c) = e;
        t.upsert(dev, c);
    }
    proof {
        assert(all.take(all.len() as int) =~= all);
    }
    t
}

} // verus!
