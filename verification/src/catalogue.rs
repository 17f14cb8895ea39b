//! The line catalogue and the incident record the matcher reads, and the
//! segment registry derived from a catalogue.

use vstd::prelude::*;
use crate::text::{copy_texts, text_eq, texts, texts_contain};

verus! {

/// One station a line calls at, with the named track segment it sits on
/// (`None` when the line file gives it no segment).
#[derive(Clone, Debug)]
pub struct LineStation {
    pub crs: String,
    pub segment: Option<String>,
}

/// Mathematical model of a [`LineStation`].
pub struct StationView {
    pub crs: Seq<char>,
    pub segment: Option<Seq<char>>,
}

/// The text of an optional string.
pub open spec fn opt_text_view(s: Option<String>) -> Option<Seq<char>> {
    match s {
        Some(t) => Some(t@),
        None => None,
    }
}

impl View for LineStation {
    type V = StationView;

    open spec fn view(&self) -> StationView {
        StationView { crs: self.crs@, segment: opt_text_view(self.segment) }
    }
}

/// One catalogue line: its id, the operator codes that run it, the
/// keywords that name it in incident text, the keywords that veto a match,
/// and the stations it calls at.
#[derive(Clone, Debug)]
pub struct LineDefinition {
    pub id: String,
    pub operators: Vec<String>,
    pub match_keywords: Vec<String>,
    pub excluded_keywords: Vec<String>,
    pub stations: Vec<LineStation>,
}

/// Mathematical model of a [`LineDefinition`].
pub struct LineView {
    pub id: Seq<char>,
    pub operators: Seq<Seq<char>>,
    pub match_keywords: Seq<Seq<char>>,
    pub excluded_keywords: Seq<Seq<char>>,
    pub stations: Seq<StationView>,
}

/// The models of a list of station listings.
pub open spec fn station_views(s: Seq<LineStation>) -> Seq<StationView> {
    s.map_values(|st: LineStation| st@)
}

impl View for LineDefinition {
    type V = LineView;

    open spec fn view(&self) -> LineView {
        LineView {
            id: self.id@,
            operators: texts(self.operators@),
            match_keywords: texts(self.match_keywords@),
            excluded_keywords: texts(self.excluded_keywords@),
            stations: station_views(self.stations@),
        }
    }
}

/// The models of a list of line definitions.
pub open spec fn line_views(lines: Seq<LineDefinition>) -> Seq<LineView> {
    lines.map_values(|l: LineDefinition| l@)
}

impl LineView {
    /// The line calls at `crs`.
    pub open spec fn has_station(self, crs: Seq<char>) -> bool {
        exists|i: int| 0 <= i < self.stations.len() && #[trigger] self.stations[i].crs == crs
    }

    /// `i` is the first position at which the line lists `crs`.
    pub open spec fn is_first_station(self, crs: Seq<char>, i: int) -> bool {
        &&& 0 <= i < self.stations.len()
        &&& self.stations[i].crs == crs
        &&& forall|j: int| 0 <= j < i ==> #[trigger] self.stations[j].crs != crs
    }

    /// The segment of the first listing of `crs` on this line.
    pub open spec fn segment_for(self, crs: Seq<char>) -> Option<Seq<char>> {
        if exists|i: int| self.is_first_station(crs, i) {
            self.stations[choose|i: int| self.is_first_station(crs, i)].segment
        } else {
            None
        }
    }
}

/// Lemma: the first listing is unique, so `segment_for` reads it.
pub proof fn lemma_first_station_unique(l: LineView, crs: Seq<char>, i: int)
    requires
        l.is_first_station(crs, i),
    ensures
        l.segment_for(crs) == l.stations[i].segment,
{
    let k = choose|k: int| l.is_first_station(crs, k);
    assert(l.is_first_station(crs, k));
    if k < i {
        assert(l.stations[k].crs != crs);
    } else if i < k {
        assert(l.stations[i].crs != crs);
    }
}

impl LineStation {
    /// A station listing with an optional segment.
    pub fn new(crs: String, segment: Option<String>) -> (r: LineStation)
        ensures
            r.crs == crs,
            r.segment == segment,
    {
        LineStation { crs, segment }
    }

    /// A fresh copy of this listing.
    pub fn duplicate(&self) -> (r: LineStation)
        ensures
            r@ == self@,
    {
        let segment = match &self.segment {
            Some(s) => Some(s.clone()),
            None => None,
        };
        LineStation { crs: self.crs.clone(), segment }
    }
}

impl LineDefinition {
    /// A fresh copy of this definition.
    pub fn duplicate(&self) -> (r: LineDefinition)
        ensures
            r@ == self@,
    {
        let mut stations: Vec<LineStation> = Vec::new();
        let mut i: usize = 0;
        while i < self.stations.len()
            invariant
                i <= self.stations@.len(),
                station_views(stations@) == station_views(self.stations@).take(i as int),
            decreases self.stations@.len() - i,
        {
            let ghost before = stations@;
            let c = self.stations[i].duplicate();
            stations.push(c);
            assert(station_views(stations@) =~= station_views(before).push(self.stations@[i as int]@));
            assert(station_views(self.stations@).take(i + 1) =~= station_views(self.stations@).take(i as int).push(self.stations@[i as int]@));
            i = i + 1;
        }
        assert(station_views(self.stations@).take(self.stations@.len() as int) =~= station_views(self.stations@));
        let r = LineDefinition {
            id: self.id.clone(),
            operators: copy_texts(&self.operators),
            match_keywords: copy_texts(&self.match_keywords),
            excluded_keywords: copy_texts(&self.excluded_keywords),
            stations,
        };
        assert(r@.stations =~= self@.stations);
        r
    }

    /// Position of the first listing of `crs`, if the line lists it.
    fn first_station(&self, crs: &str) -> (r: Option<usize>)
        ensures
            match r {
                Some(i) => self@.is_first_station(crs@, i as int),
                None => !self@.has_station(crs@),
            },
    {
        let mut i: usize = 0;
        while i < self.stations.len()
            invariant
                i <= self.stations@.len(),
                forall|j: int| 0 <= j < i ==> #[trigger] self@.stations[j].crs != crs@,
            decreases self.stations@.len() - i,
        {
            assert(self@.stations[i as int] == self.stations@[i as int]@);
            if text_eq(self.stations[i].crs.as_str(), crs) {
                return Some(i);
            }
            i = i + 1;
        }
        None
    }

    /// True if the line calls at `crs`.
    pub fn has_station(&self, crs: &str) -> (r: bool)
        ensures
            r == self@.has_station(crs@),
    {
        match self.first_station(crs) {
            Some(_) => true,
            None => false,
        }
    }

    /// The segment the line puts `crs` on (its first listing of `crs`).
    pub fn segment_for(&self, crs: &str) -> (r: Option<&str>)
        ensures
            match r {
                Some(s) => self@.segment_for(crs@) == Some(s@),
                None => self@.segment_for(crs@) == None::<Seq<char>>,
            },
    {
        match self.first_station(crs) {
            Some(i) => {
                proof {
                    lemma_first_station_unique(self@, crs@, i as int);
                }
                match &self.stations[i].segment {
                    Some(s) => Some(s.as_str()),
                    None => None,
                }
            },
            None => {
                assert(!exists|i: int| self@.is_first_station(crs@, i));
                None
            },
        }
    }
}

/// A Knowledgebase incident as the feed delivers it. The matcher reads
/// `summary`, `description`, `operators` and `affected_stations` only.
#[derive(Clone, Debug)]
pub struct IncidentMessage {
    pub incident_id: String,
    pub summary: String,
    pub description: String,
    pub operators: Vec<String>,
    pub affected_stations: Vec<String>,
    pub priority: i64,
    pub validity: Vec<ValidityPeriod>,
    pub is_planned: bool,
    pub is_cleared: bool,
}

/// A period during which an incident applies, as the feed gives its start
/// and (when known) end timestamps.
#[derive(Clone, Debug)]
pub struct ValidityPeriod {
    pub start: String,
    pub end: Option<String>,
}

/// The distinct segments that the stations `hits` sit on along line `l`,
/// in order of first appearance among `hits`.
pub open spec fn touched_segments(l: LineView, hits: Seq<Seq<char>>) -> Seq<Seq<char>>
    decreases hits.len(),
{
    if hits.len() == 0 {
        Seq::empty()
    } else {
        let prev = touched_segments(l, hits.drop_last());
        match l.segment_for(hits.last()) {
            Some(s) => if prev.contains(s) {
                prev
            } else {
                prev.push(s)
            },
            None => prev,
        }
    }
}

/// Which lines use which named segment: the set of (segment, line id)
/// pairs of a catalogue, one for every station listing that names a
/// segment.
pub open spec fn segment_users(lines: Seq<LineView>) -> Set<(Seq<char>, Seq<char>)> {
    Set::new(
        |p: (Seq<char>, Seq<char>)|
            exists|i: int, k: int|
                0 <= i < lines.len() && 0 <= k < lines[i].stations.len()
                    && #[trigger] lines[i].stations[k].segment == Some(p.0) && lines[i].id == p.1,
    )
}

/// Segment-name index over a catalogue: for each named segment, which
/// lines carry it.
pub struct SegmentRegistry {
    users: Vec<(String, String)>,
}

impl View for SegmentRegistry {
    type V = Set<(Seq<char>, Seq<char>)>;

    closed spec fn view(&self) -> Set<(Seq<char>, Seq<char>)> {
        Set::new(
            |p: (Seq<char>, Seq<char>)|
                exists|j: int|
                    0 <= j < self.users@.len() && #[trigger] self.users@[j].0@ == p.0
                        && self.users@[j].1@ == p.1,
        )
    }
}

/// More than one line carries `segment`.
pub open spec fn spec_is_shared(users: Set<(Seq<char>, Seq<char>)>, segment: Seq<char>) -> bool {
    exists|a: Seq<char>, b: Seq<char>|
        #[trigger] users.contains((segment, a)) && #[trigger] users.contains((segment, b)) && a != b
}

/// `segment` is carried by `line_id` and by no other line.
pub open spec fn spec_is_exclusive_to(
    users: Set<(Seq<char>, Seq<char>)>,
    segment: Seq<char>,
    line_id: Seq<char>,
) -> bool {
    &&& users.contains((segment, line_id))
    &&& forall|b: Seq<char>| #[trigger] users.contains((segment, b)) ==> b == line_id
}

spec fn listed_pair(users: Seq<(String, String)>, p: (Seq<char>, Seq<char>)) -> bool {
    exists|j: int| 0 <= j < users.len() && #[trigger] users[j].0@ == p.0 && users[j].1@ == p.1
}

spec fn pair_of_lines(lv: Seq<LineView>, n: int, p: (Seq<char>, Seq<char>)) -> bool {
    exists|a: int, k: int|
        0 <= a < n && 0 <= k < lv[a].stations.len() && #[trigger] lv[a].stations[k].segment == Some(p.0)
            && lv[a].id == p.1
}

spec fn pair_of_stations(l: LineView, n: int, p: (Seq<char>, Seq<char>)) -> bool {
    exists|k: int| 0 <= k < n && #[trigger] l.stations[k].segment == Some(p.0) && l.id == p.1
}

impl SegmentRegistry {
    /// Indexes every named segment of every line of `lines`.
    pub fn new(lines: &[LineDefinition]) -> (r: SegmentRegistry)
        ensures
            r@ == segment_users(line_views(lines@)),
    {
        let ghost lv = line_views(lines@);
        let mut users: Vec<(String, String)> = Vec::new();
        let mut i: usize = 0;
        while i < lines.len()
            invariant
                i <= lines@.len(),
                lv == line_views(lines@),
                forall|p: (Seq<char>, Seq<char>)|
                    #[trigger] listed_pair(users@, p) <==> pair_of_lines(lv, i as int, p),
            decreases lines@.len() - i,
        {
            let line = &lines[i];
            assert(lv[i as int] == line@);
            let mut k: usize = 0;
            while k < line.stations.len()
                invariant
                    i < lines@.len(),
                    k <= line.stations@.len(),
                    lv == line_views(lines@),
                    lv[i as int] == line@,
                    forall|p: (Seq<char>, Seq<char>)|
                        #[trigger] listed_pair(users@, p) <==> (pair_of_lines(lv, i as int, p)
                            || pair_of_stations(lv[i as int], k as int, p)),
                decreases line.stations@.len() - k,
            {
                assert(line@.stations[k as int] == line.stations@[k as int]@);
                let ghost before = users@;
                match &line.stations[k].segment {
                    Some(seg) => {
                        users.push((seg.clone(), line.id.clone()));
                    },
                    None => {},
                }
                assert forall|p: (Seq<char>, Seq<char>)|
                    #[trigger] listed_pair(users@, p) <==> (pair_of_lines(lv, i as int, p)
                        || pair_of_stations(lv[i as int], k + 1, p)) by {
                    if listed_pair(users@, p) {
                        let j = choose|j: int| 0 <= j < users@.len() && #[trigger] users@[j].0@ == p.0 && users@[j].1@ == p.1;
                        if j < before.len() {
                            assert(before[j] == users@[j]);
                            assert(listed_pair(before, p));
                            if pair_of_stations(lv[i as int], k as int, p) {
                                let k2 = choose|k2: int| 0 <= k2 < k && #[trigger] lv[i as int].stations[k2].segment == Some(p.0) && lv[i as int].id == p.1;
                                assert(lv[i as int].stations[k2].segment == Some(p.0));
                            }
                        } else {
                            assert(lv[i as int].stations[k as int].segment == Some(p.0));
                        }
                    }
                    if pair_of_stations(lv[i as int], k + 1, p) {
                        let k2 = choose|k2: int| 0 <= k2 < k + 1 && #[trigger] lv[i as int].stations[k2].segment == Some(p.0) && lv[i as int].id == p.1;
                        if k2 == k {
                            assert(users@[before.len() as int].0@ == p.0);
                        } else {
                            assert(pair_of_stations(lv[i as int], k as int, p));
                            assert(listed_pair(before, p));
                            let j = choose|j: int| 0 <= j < before.len() && #[trigger] before[j].0@ == p.0 && before[j].1@ == p.1;
                            assert(users@[j] == before[j]);
                        }
                    }
                    if pair_of_lines(lv, i as int, p) {
                        assert(listed_pair(before, p));
                        let j = choose|j: int| 0 <= j < before.len() && #[trigger] before[j].0@ == p.0 && before[j].1@ == p.1;
                        assert(users@[j] == before[j]);
                    }
                }
                k = k + 1;
            }
            assert forall|p: (Seq<char>, Seq<char>)|
                #[trigger] listed_pair(users@, p) <==> pair_of_lines(lv, i + 1, p) by {
                if pair_of_lines(lv, i + 1, p) {
                    let (a, k2) = choose|a: int, k2: int|
                        0 <= a < i + 1 && 0 <= k2 < lv[a].stations.len() && #[trigger] lv[a].stations[k2].segment == Some(p.0)
                            && lv[a].id == p.1;
                    if a == i {
                        assert(pair_of_stations(lv[i as int], k as int, p));
                    } else {
                        assert(pair_of_lines(lv, i as int, p));
                    }
                }
                if pair_of_stations(lv[i as int], k as int, p) {
                    let k2 = choose|k2: int| 0 <= k2 < k && #[trigger] lv[i as int].stations[k2].segment == Some(p.0) && lv[i as int].id == p.1;
                    assert(lv[i as int].stations[k2].segment == Some(p.0));
                }
                if pair_of_lines(lv, i as int, p) {
                    let (a, k2) = choose|a: int, k2: int|
                        0 <= a < i && 0 <= k2 < lv[a].stations.len() && #[trigger] lv[a].stations[k2].segment == Some(p.0)
                            && lv[a].id == p.1;
                    assert(lv[a].stations[k2].segment == Some(p.0));
                }
            }
            i = i + 1;
        }
        let r = SegmentRegistry { users };
        assert forall|p: (Seq<char>, Seq<char>)| r@.contains(p) <==> segment_users(lv).contains(p) by {
            assert(r@.contains(p) == listed_pair(users@, p));
            assert(segment_users(lv).contains(p) == pair_of_lines(lv, lv.len() as int, p));
        }
        assert(r@ =~= segment_users(lv));
        r
    }

    /// More than one line carries `segment`.
    pub fn is_shared(&self, segment: &str) -> (r: bool)
        ensures
            r == spec_is_shared(self@, segment@),
    {
        let mut first: Option<usize> = None;
        let mut j: usize = 0;
        while j < self.users.len()
            invariant
                j <= self.users@.len(),
                match first {
                    None => forall|k: int| 0 <= k < j ==> #[trigger] self.users@[k].0@ != segment@,
                    Some(f) => f < j && self.users@[f as int].0@ == segment@ && forall|k: int|
                        0 <= k < j && #[trigger] self.users@[k].0@ == segment@ ==> self.users@[k].1@
                            == self.users@[f as int].1@,
                },
            decreases self.users@.len() - j,
        {
            if text_eq(self.users[j].0.as_str(), segment) {
                match first {
                    None => {
                        first = Some(j);
                    },
                    Some(f) => {
                        if !text_eq(self.users[j].1.as_str(), self.users[f].1.as_str()) {
                            proof {
                                let a = self.users@[f as int].1@;
                                let b = self.users@[j as int].1@;
                                assert(listed_pair(self.users@, (segment@, a)));
                                assert(listed_pair(self.users@, (segment@, b)));
                                assert(self@.contains((segment@, a)));
                                assert(self@.contains((segment@, b)));
                            }
                            return true;
                        }
                    },
                }
            }
            j = j + 1;
        }
        proof {
            assert forall|a: Seq<char>, b: Seq<char>|
                #[trigger] self@.contains((segment@, a)) && #[trigger] self@.contains((segment@, b))
                    implies a == b by {
                let ja = choose|k: int| 0 <= k < self.users@.len() && #[trigger] self.users@[k].0@ == segment@ && self.users@[k].1@ == a;
                let jb = choose|k: int| 0 <= k < self.users@.len() && #[trigger] self.users@[k].0@ == segment@ && self.users@[k].1@ == b;
                assert(self.users@[ja].0@ == segment@);
                assert(self.users@[jb].0@ == segment@);
            }
        }
        false
    }

    /// `segment` is carried by `line_id` and by no other line.
    pub fn is_exclusive_to(&self, segment: &str, line_id: &str) -> (r: bool)
        ensures
            r == spec_is_exclusive_to(self@, segment@, line_id@),
    {
        let mut found = false;
        let mut j: usize = 0;
        while j < self.users.len()
            invariant
                j <= self.users@.len(),
                forall|k: int| 0 <= k < j && #[trigger] self.users@[k].0@ == segment@ ==> self.users@[k].1@ == line_id@,
                found <==> exists|k: int| 0 <= k < j && #[trigger] self.users@[k].0@ == segment@,
            decreases self.users@.len() - j,
        {
            if text_eq(self.users[j].0.as_str(), segment) {
                if !text_eq(self.users[j].1.as_str(), line_id) {
                    proof {
                        let b = self.users@[j as int].1@;
                        assert(listed_pair(self.users@, (segment@, b)));
                        assert(self@.contains((segment@, b)));
                    }
                    return false;
                }
                found = true;
            }
            j = j + 1;
        }
        proof {
            if found {
                let k = choose|k: int| 0 <= k < j && #[trigger] self.users@[k].0@ == segment@;
                assert(listed_pair(self.users@, (segment@, line_id@)));
                assert(self@.contains((segment@, line_id@)));
            } else {
                if self@.contains((segment@, line_id@)) {
                    let k = choose|k: int| 0 <= k < self.users@.len() && #[trigger] self.users@[k].0@ == segment@ && self.users@[k].1@ == line_id@;
                    assert(false);
                }
            }
            assert forall|b: Seq<char>| #[trigger] self@.contains((segment@, b)) implies b == line_id@ by {
                let k = choose|k: int| 0 <= k < self.users@.len() && #[trigger] self.users@[k].0@ == segment@ && self.users@[k].1@ == b;
            }
        }
        found
    }

    /// The distinct segments of `line` that the stations `station_hits`
    /// sit on.
    pub fn segments_touched_by(&self, line: &LineDefinition, station_hits: &Vec<String>) -> (r: Vec<String>)
        ensures
            texts(r@) == touched_segments(line@, texts(station_hits@)),
    {
        let ghost hits = texts(station_hits@);
        let mut out: Vec<String> = Vec::new();
        let mut i: usize = 0;
        while i < station_hits.len()
            invariant
                i <= station_hits@.len(),
                hits == texts(station_hits@),
                texts(out@) == touched_segments(line@, hits.take(i as int)),
            decreases station_hits@.len() - i,
        {
            assert(hits.take(i + 1).drop_last() =~= hits.take(i as int));
            assert(hits.take(i + 1).last() == station_hits@[i as int]@);
            match line.segment_for(station_hits[i].as_str()) {
                Some(seg) => {
                    if !texts_contain(&out, seg) {
                        let ghost before = out@;
                        out.push(String::from_str(seg));
                        assert(texts(out@) =~= texts(before).push(seg@));
                    }
                },
                None => {},
            }
            i = i + 1;
        }
        assert(hits.take(station_hits@.len() as int) =~= hits);
        out
    }
}

} // verus!
