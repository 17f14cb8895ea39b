//! Decide which catalogue lines an incident affects, and classify the scope
//! of each match.

use vstd::prelude::*;
use crate::catalogue::{
    line_views, segment_users, IncidentMessage, LineDefinition, LineView, SegmentRegistry, spec_is_exclusive_to,
    spec_is_shared, touched_segments,
};
use crate::matcher_laws::law_text_is_matched_case_insensitively;
use crate::text::{
    lemma_text_lt_total, lemma_text_lt_transitive, text_less, text_lt,
    text_eq, chars_of, contains_chars, contains_seq, lowercase, texts, texts_contain, to_lowercase,
    ascii_upper};

verus! {

/// How precisely an incident was tied to a line, most precise first.
#[derive(Debug, Clone, Copy, PartialEq, Eq, Hash, Structural)]
pub enum MatchScope {
    ExclusiveSegment,
    SharedSegment,
    StationHit,
    KeywordOnly,
    OperatorOnly,
}

/// What tied the incident to the line.
#[derive(Debug, Clone)]
pub struct Evidence {
    pub stations: Vec<String>,
    pub segments: Vec<String>,
    pub operators: Vec<String>,
    pub keywords: Vec<String>,
}

/// Mathematical model of an [`Evidence`].
pub struct EvidenceView {
    pub stations: Seq<Seq<char>>,
    pub segments: Seq<Seq<char>>,
    pub operators: Seq<Seq<char>>,
    pub keywords: Seq<Seq<char>>,
}

impl View for Evidence {
    type V = EvidenceView;

    open spec fn view(&self) -> EvidenceView {
        EvidenceView {
            stations: texts(self.stations@),
            segments: texts(self.segments@),
            operators: texts(self.operators@),
            keywords: texts(self.keywords@),
        }
    }
}

/// One affected line with its scope and evidence.
pub struct Match<'a> {
    pub line: &'a LineDefinition,
    pub scope: MatchScope,
    pub evidence: Evidence,
}

/// Mathematical model of a [`Match`].
pub struct MatchView {
    pub line: LineView,
    pub scope: MatchScope,
    pub evidence: EvidenceView,
}

impl<'a> View for Match<'a> {
    type V = MatchView;

    open spec fn view(&self) -> MatchView {
        MatchView { line: self.line@, scope: self.scope, evidence: self.evidence@ }
    }
}

/// The four fields of an incident that matching reads.
pub struct IncidentView {
    pub summary: Seq<char>,
    pub description: Seq<char>,
    pub operators: Seq<Seq<char>>,
    pub affected_stations: Seq<Seq<char>>,
}

impl View for IncidentMessage {
    type V = IncidentView;

    open spec fn view(&self) -> IncidentView {
        IncidentView {
            summary: self.summary@,
            description: self.description@,
            operators: texts(self.operators@),
            affected_stations: texts(self.affected_stations@),
        }
    }
}

/// The incident with the ASCII letters of its summary and description
/// upper-cased; its lists as they are.
pub open spec fn ascii_upper_incident(inc: IncidentView) -> IncidentView {
    IncidentView {
        summary: ascii_upper(inc.summary),
        description: ascii_upper(inc.description),
        operators: inc.operators,
        affected_stations: inc.affected_stations,
    }
}

/// The lowercased text searched for keywords: summary, a space, description.
pub open spec fn haystack(inc: IncidentView) -> Seq<char> {
    lowercase(inc.summary + seq![' '] + inc.description)
}

/// Keyword `kw` occurs, case-folded, in the (already case-folded) text `h`.
pub open spec fn keyword_hit(h: Seq<char>, kw: Seq<char>) -> bool {
    contains_seq(h, lowercase(kw))
}

/// Some excluded keyword of the line occurs in the text.
pub open spec fn keyword_vetoed(l: LineView, h: Seq<char>) -> bool {
    exists|k: int| 0 <= k < l.excluded_keywords.len() && #[trigger] keyword_hit(h, l.excluded_keywords[k])
}

/// The line's operator codes that the incident also names, in line order.
pub open spec fn operator_overlap(l: LineView, inc_ops: Seq<Seq<char>>) -> Seq<Seq<char>> {
    l.operators.filter(|op: Seq<char>| inc_ops.contains(op))
}

/// The incident's stations that the line calls at, in incident order.
pub open spec fn station_hits(l: LineView, stations: Seq<Seq<char>>) -> Seq<Seq<char>> {
    stations.filter(|crs: Seq<char>| l.has_station(crs))
}

/// The line's match keywords that occur in the text, in line order.
pub open spec fn keyword_hits(l: LineView, h: Seq<char>) -> Seq<Seq<char>> {
    l.match_keywords.filter(|kw: Seq<char>| keyword_hit(h, kw))
}

/// Scope of a station-level match from the segments it touched.
pub open spec fn segment_scope(
    l: LineView,
    segs: Seq<Seq<char>>,
    users: Set<(Seq<char>, Seq<char>)>,
) -> MatchScope {
    if segs.len() > 0 && forall|i: int| 0 <= i < segs.len() ==> #[trigger] spec_is_exclusive_to(users, segs[i], l.id) {
        MatchScope::ExclusiveSegment
    } else if segs.len() > 0 && exists|i: int| 0 <= i < segs.len() && #[trigger] spec_is_shared(users, segs[i]) {
        MatchScope::SharedSegment
    } else {
        MatchScope::StationHit
    }
}

/// How one line matches an incident, if it does: station hits first
/// (classified by segment), then keyword hits unless the incident's own
/// operator list names operators and none of them is the line's, then the
/// operator codes alone.
pub open spec fn match_line(
    l: LineView,
    inc: IncidentView,
    users: Set<(Seq<char>, Seq<char>)>,
    h: Seq<char>,
) -> Option<MatchView> {
    let ops = operator_overlap(l, inc.operators);
    let st = station_hits(l, inc.affected_stations);
    let kws = keyword_hits(l, h);
    if st.len() > 0 {
        let segs = touched_segments(l, st);
        Some(MatchView {
            line: l,
            scope: segment_scope(l, segs, users),
            evidence: EvidenceView { stations: st, segments: segs, operators: ops, keywords: kws },
        })
    } else if kws.len() > 0 && !(inc.operators.len() > 0 && ops.len() == 0) {
        Some(MatchView {
            line: l,
            scope: MatchScope::KeywordOnly,
            evidence: EvidenceView {
                stations: Seq::empty(),
                segments: Seq::empty(),
                operators: ops,
                keywords: kws,
            },
        })
    } else if ops.len() > 0 {
        Some(MatchView {
            line: l,
            scope: MatchScope::OperatorOnly,
            evidence: EvidenceView {
                stations: Seq::empty(),
                segments: Seq::empty(),
                operators: ops,
                keywords: Seq::empty(),
            },
        })
    } else {
        None
    }
}

/// Whether keyword `kw`, case-folded, occurs in the case-folded text `hay`.
fn keyword_found(hay: &Vec<char>, kw: &String) -> (r: bool)
    ensures
        r == keyword_hit(hay@, kw@),
{
    let folded = to_lowercase(kw.as_str());
    let needle = chars_of(folded.as_str());
    contains_chars(hay, &needle)
}

/// Whether one of the line's excluded keywords occurs in the text.
fn is_excluded(line: &LineDefinition, hay: &Vec<char>) -> (r: bool)
    ensures
        r == keyword_vetoed(line@, hay@),
{
    let mut k: usize = 0;
    while k < line.excluded_keywords.len()
        invariant
            k <= line.excluded_keywords@.len(),
            forall|j: int| 0 <= j < k ==> !#[trigger] keyword_hit(hay@, line@.excluded_keywords[j]),
        decreases line.excluded_keywords@.len() - k,
    {
        if keyword_found(hay, &line.excluded_keywords[k]) {
            assert(keyword_hit(hay@, line@.excluded_keywords[k as int]));
            return true;
        }
        k = k + 1;
    }
    false
}

/// The line's operator codes that the incident names, in line order.
fn overlapping_operators(line: &LineDefinition, incident_ops: &Vec<String>) -> (r: Vec<String>)
    ensures
        texts(r@) == operator_overlap(line@, texts(incident_ops@)),
{
    let ghost all = line@.operators;
    let ghost inc_ops = texts(incident_ops@);
    let ghost pred = |op: Seq<char>| inc_ops.contains(op);
    let mut out: Vec<String> = Vec::new();
    let mut i: usize = 0;
    while i < line.operators.len()
        invariant
            i <= all.len(),
            all == line@.operators,
            inc_ops == texts(incident_ops@),
            pred == (|op: Seq<char>| inc_ops.contains(op)),
            texts(out@) == all.take(i as int).filter(pred),
        decreases all.len() - i,
    {
        assert(all.take(i + 1).drop_last() =~= all.take(i as int));
        assert(all.take(i + 1).last() == line.operators@[i as int]@);
        let ghost x = line.operators@[i as int]@;
        assert(all.take(i + 1).filter(pred) == if pred(x) {
            all.take(i as int).filter(pred).push(x)
        } else {
            all.take(i as int).filter(pred)
        }) by {
            reveal(Seq::filter);
        }
        let hit = texts_contain(incident_ops, line.operators[i].as_str());
        assert(hit == pred(x));
        if hit {
            let ghost before = out@;
            out.push(line.operators[i].clone());
            assert(texts(out@) =~= texts(before).push(line.operators@[i as int]@));
        }
        i = i + 1;
    }
    assert(all.take(all.len() as int) =~= all);
    out
}

/// The incident's stations that the line calls at, in incident order.
fn stations_hit(line: &LineDefinition, stations: &Vec<String>) -> (r: Vec<String>)
    ensures
        texts(r@) == station_hits(line@, texts(stations@)),
{
    let ghost all = texts(stations@);
    let ghost l = line@;
    let ghost pred = |crs: Seq<char>| l.has_station(crs);
    let mut out: Vec<String> = Vec::new();
    let mut i: usize = 0;
    while i < stations.len()
        invariant
            i <= all.len(),
            all == texts(stations@),
            l == line@,
            pred == (|crs: Seq<char>| l.has_station(crs)),
            texts(out@) == all.take(i as int).filter(pred),
        decreases all.len() - i,
    {
        assert(all.take(i + 1).drop_last() =~= all.take(i as int));
        assert(all.take(i + 1).last() == stations@[i as int]@);
        let ghost x = stations@[i as int]@;
        assert(all.take(i + 1).filter(pred) == if pred(x) {
            all.take(i as int).filter(pred).push(x)
        } else {
            all.take(i as int).filter(pred)
        }) by {
            reveal(Seq::filter);
        }
        let hit = line.has_station(stations[i].as_str());
        assert(hit == pred(x));
        if hit {
            let ghost before = out@;
            out.push(stations[i].clone());
            assert(texts(out@) =~= texts(before).push(stations@[i as int]@));
        }
        i = i + 1;
    }
    assert(all.take(all.len() as int) =~= all);
    out
}

/// The line's match keywords that occur in the text, in line order.
fn keywords_hit(line: &LineDefinition, hay: &Vec<char>) -> (r: Vec<String>)
    ensures
        texts(r@) == keyword_hits(line@, hay@),
{
    let ghost all = line@.match_keywords;
    let ghost h = hay@;
    let ghost pred = |kw: Seq<char>| keyword_hit(h, kw);
    let mut out: Vec<String> = Vec::new();
    let mut i: usize = 0;
    while i < line.match_keywords.len()
        invariant
            i <= all.len(),
            all == line@.match_keywords,
            h == hay@,
            pred == (|kw: Seq<char>| keyword_hit(h, kw)),
            texts(out@) == all.take(i as int).filter(pred),
        decreases all.len() - i,
    {
        assert(all.take(i + 1).drop_last() =~= all.take(i as int));
        assert(all.take(i + 1).last() == line.match_keywords@[i as int]@);
        let ghost x = line.match_keywords@[i as int]@;
        assert(all.take(i + 1).filter(pred) == if pred(x) {
            all.take(i as int).filter(pred).push(x)
        } else {
            all.take(i as int).filter(pred)
        }) by {
            reveal(Seq::filter);
        }
        let hit = keyword_found(hay, &line.match_keywords[i]);
        assert(hit == pred(x));
        if hit {
            let ghost before = out@;
            out.push(line.match_keywords[i].clone());
            assert(texts(out@) =~= texts(before).push(line.match_keywords@[i as int]@));
        }
        i = i + 1;
    }
    assert(all.take(all.len() as int) =~= all);
    out
}

/// Scope of a station-level match from the segments it touched.
fn classify(line: &LineDefinition, segments: &Vec<String>, registry: &SegmentRegistry) -> (r: MatchScope)
    ensures
        r == segment_scope(line@, texts(segments@), registry@),
{
    let ghost segs = texts(segments@);
    if segments.len() > 0 {
        let mut all_exclusive = true;
        let mut i: usize = 0;
        while i < segments.len()
            invariant
                i <= segs.len(),
                segs == texts(segments@),
                all_exclusive <==> forall|j: int| 0 <= j < i ==> #[trigger] spec_is_exclusive_to(registry@, segs[j], line@.id),
            decreases segs.len() - i,
        {
            assert(segs[i as int] == segments@[i as int]@);
            let exclusive = registry.is_exclusive_to(segments[i].as_str(), line.id.as_str());
            assert(exclusive == spec_is_exclusive_to(registry@, segs[i as int], line@.id));
            if !exclusive {
                all_exclusive = false;
            }
            i = i + 1;
        }
        if all_exclusive {
            return MatchScope::ExclusiveSegment;
        }
        let mut i: usize = 0;
        while i < segments.len()
            invariant
                i <= segs.len(),
                segs == texts(segments@),
                segs.len() > 0,
                !forall|j: int| 0 <= j < segs.len() ==> #[trigger] spec_is_exclusive_to(registry@, segs[j], line@.id),
                forall|j: int| 0 <= j < i ==> !#[trigger] spec_is_shared(registry@, segs[j]),
            decreases segs.len() - i,
        {
            assert(segs[i as int] == segments@[i as int]@);
            if registry.is_shared(segments[i].as_str()) {
                assert(spec_is_shared(registry@, segs[i as int]));
                return MatchScope::SharedSegment;
            }
            i = i + 1;
        }
    }
    MatchScope::StationHit
}

/// How `line` matches the incident, if it does (see [`match_line`]);
/// `hay` is the incident's case-folded text.
fn match_one<'a>(
    line: &'a LineDefinition,
    incident: &IncidentMessage,
    registry: &SegmentRegistry,
    hay: &Vec<char>,
) -> (r: Option<Match<'a>>)
    ensures
        match r {
            Some(m) => m.line == line && match_line(line@, incident@, registry@, hay@) == Some(m@),
            None => match_line(line@, incident@, registry@, hay@) == None::<MatchView>,
        },
{
    let operator_overlap = overlapping_operators(line, &incident.operators);
    let station_hits = stations_hit(line, &incident.affected_stations);
    let keyword_hits = keywords_hit(line, hay);

    proof {
        assert(texts(Seq::<String>::empty()) =~= Seq::<Seq<char>>::empty());
    }

    // Tier 1: station hits, classified by segment.
    if station_hits.len() > 0 {
        let segments = registry.segments_touched_by(line, &station_hits);
        let scope = classify(line, &segments, registry);
        let evidence = Evidence {
            stations: station_hits,
            segments,
            operators: operator_overlap,
            keywords: keyword_hits,
        };
        return Some(Match { line, scope, evidence });
    }

    // Tier 2: keyword hits, unless the incident's own operator list names
    // operators and none of them runs this line.
    if keyword_hits.len() > 0 {
        let contradicted = incident.operators.len() > 0 && operator_overlap.len() == 0;
        if !contradicted {
            let evidence = Evidence {
                stations: Vec::new(),
                segments: Vec::new(),
                operators: operator_overlap,
                keywords: keyword_hits,
            };
            return Some(Match { line, scope: MatchScope::KeywordOnly, evidence });
        }
    }

    // Tier 3: operator codes alone.
    if operator_overlap.len() > 0 {
        let evidence = Evidence {
            stations: Vec::new(),
            segments: Vec::new(),
            operators: operator_overlap,
            keywords: Vec::new(),
        };
        return Some(Match { line, scope: MatchScope::OperatorOnly, evidence });
    }
    None
}

/// Every non-vetoed match of the lines, in catalogue order, before the
/// operator-only filter.
pub open spec fn raw_matches(
    lines: Seq<LineView>,
    inc: IncidentView,
    users: Set<(Seq<char>, Seq<char>)>,
    h: Seq<char>,
) -> Seq<MatchView>
    decreases lines.len(),
{
    if lines.len() == 0 {
        Seq::empty()
    } else {
        let prev = raw_matches(lines.drop_last(), inc, users, h);
        let l = lines.last();
        if keyword_vetoed(l, h) {
            prev
        } else {
            match match_line(l, inc, users, h) {
                Some(m) => prev.push(m),
                None => prev,
            }
        }
    }
}

/// Some match among `raw` that is more precise than operator-only is for
/// a line that operator `op` runs.
pub open spec fn precise_operator(raw: Seq<MatchView>, op: Seq<char>) -> bool {
    exists|i: int|
        0 <= i < raw.len() && raw[i].scope != MatchScope::OperatorOnly && #[trigger] raw[i].line.operators.contains(op)
}

/// A match is kept unless it is operator-only and one of its line's
/// operators got a more precise match on some line.
pub open spec fn survives(m: MatchView, raw: Seq<MatchView>) -> bool {
    m.scope != MatchScope::OperatorOnly || forall|k: int|
        0 <= k < m.line.operators.len() ==> !#[trigger] precise_operator(raw, m.line.operators[k])
}

/// What [`lines_affected_by`] returns for these lines, this incident and
/// this segment index.
pub open spec fn affected_lines(
    lines: Seq<LineView>,
    inc: IncidentView,
    users: Set<(Seq<char>, Seq<char>)>,
) -> Seq<MatchView> {
    let raw = raw_matches(lines, inc, users, haystack(inc));
    raw.filter(|m: MatchView| survives(m, raw))
}

/// The models of a list of matches.
pub open spec fn match_views<'a>(s: Seq<Match<'a>>) -> Seq<MatchView> {
    s.map_values(|m: Match<'a>| m@)
}

/// The incident's text, case-folded: summary, a space, description.
fn incident_haystack(incident: &IncidentMessage) -> (r: Vec<char>)
    ensures
        r@ == haystack(incident@),
        r@ == haystack(ascii_upper_incident(incident@)),
{
    let mut text = incident.summary.clone();
    text.append(" ");
    text.append(incident.description.as_str());
    proof {
        reveal_strlit(" ");
        assert(text@ =~= incident.summary@ + seq![' '] + incident.description@);
        assert(ascii_upper(text@) =~= ascii_upper(incident.summary@) + seq![' '] + ascii_upper(
            incident.description@,
        ));
    }
    let folded = to_lowercase(text.as_str());
    chars_of(folded.as_str())
}

/// Whether some match in `raw` more precise than operator-only is for a
/// line that `op` runs.
fn has_precise_match(raw: &Vec<Match>, op: &String) -> (r: bool)
    ensures
        r == precise_operator(match_views(raw@), op@),
{
    let ghost views = match_views(raw@);
    let mut i: usize = 0;
    while i < raw.len()
        invariant
            i <= raw@.len(),
            views == match_views(raw@),
            forall|j: int|
                0 <= j < i ==> !(views[j].scope != MatchScope::OperatorOnly && #[trigger] views[j].line.operators.contains(op@)),
        decreases raw@.len() - i,
    {
        assert(views[i as int] == raw@[i as int]@);
        if raw[i].scope != MatchScope::OperatorOnly && texts_contain(&raw[i].line.operators, op.as_str()) {
            assert(views[i as int].line.operators.contains(op@));
            return true;
        }
        i = i + 1;
    }
    false
}

/// Whether match `idx` of `raw` survives the operator-only filter.
fn survives_filter(raw: &Vec<Match>, idx: usize) -> (r: bool)
    requires
        idx < raw@.len(),
    ensures
        r == survives(match_views(raw@)[idx as int], match_views(raw@)),
{
    let ghost views = match_views(raw@);
    let m = &raw[idx];
    assert(views[idx as int] == m@);
    if m.scope != MatchScope::OperatorOnly {
        return true;
    }
    let mut k: usize = 0;
    while k < m.line.operators.len()
        invariant
            k <= m.line.operators@.len(),
            views == match_views(raw@),
            views[idx as int] == m@,
            m.scope == MatchScope::OperatorOnly,
            forall|j: int| 0 <= j < k ==> !#[trigger] precise_operator(views, m@.line.operators[j]),
        decreases m.line.operators@.len() - k,
    {
        assert(m@.line.operators[k as int] == m.line.operators@[k as int]@);
        if has_precise_match(raw, &m.line.operators[k]) {
            assert(precise_operator(views, views[idx as int].line.operators[k as int]));
            return false;
        }
        k = k + 1;
    }
    true
}

/// Return all lines the incident could plausibly affect, classified.
///
/// A line is skipped when one of its excluded keywords occurs in the
/// incident's text. An operator-only match is dropped when some line that
/// shares one of its operator codes got a more precise match in this
/// incident. Reads the incident's `summary`, `description`, `operators`
/// and `affected_stations` only.
pub fn lines_affected_by<'a>(
    incident: &IncidentMessage,
    lines: &'a [LineDefinition],
    registry: &SegmentRegistry,
) -> (r: Vec<Match<'a>>)
    ensures
        match_views(r@) == affected_lines(line_views(lines@), incident@, registry@),
        match_views(r@) == affected_lines(line_views(lines@), ascii_upper_incident(incident@), registry@),
{
    let hay = incident_haystack(incident);
    proof {
        law_text_is_matched_case_insensitively(
            line_views(lines@),
            incident@,
            ascii_upper_incident(incident@),
            registry@,
        );
    }
    let ghost lv = line_views(lines@);
    let ghost inc = incident@;
    let ghost users = registry@;
    let mut raw: Vec<Match<'a>> = Vec::new();
    let mut i: usize = 0;
    while i < lines.len()
        invariant
            i <= lines@.len(),
            lv == line_views(lines@),
            inc == incident@,
            users == registry@,
            hay@ == haystack(inc),
            match_views(raw@) == raw_matches(lv.take(i as int), inc, users, hay@),
        decreases lines@.len() - i,
    {
        let line = &lines[i];
        assert(lv.take(i + 1).drop_last() =~= lv.take(i as int));
        assert(lv.take(i + 1).last() == line@);
        if !is_excluded(line, &hay) {
            match match_one(line, incident, registry, &hay) {
                Some(m) => {
                    let ghost before = raw@;
                    raw.push(m);
                    assert(match_views(raw@) =~= match_views(before).push(m@));
                },
                None => {},
            }
        }
        i = i + 1;
    }
    assert(lv.take(lines@.len() as int) =~= lv);

    // Decide, against the complete list, which matches survive the
    // per-operator filter on operator-only matches.
    let ghost all = match_views(raw@);
    let mut keep: Vec<bool> = Vec::new();
    let mut j: usize = 0;
    while j < raw.len()
        invariant
            j <= raw@.len(),
            all == match_views(raw@),
            keep@.len() == j,
            forall|k: int| 0 <= k < j ==> keep@[k] == survives(#[trigger] all[k], all),
        decreases raw@.len() - j,
    {
        let s = survives_filter(&raw, j);
        keep.push(s);
        j = j + 1;
    }

    let ghost pred = |m: MatchView| survives(m, all);
    let n = raw.len();
    let mut out: Vec<Match<'a>> = Vec::new();
    let mut t: usize = 0;
    while t < n
        invariant
            t <= n,
            n == all.len(),
            keep@.len() == n,
            forall|k: int| 0 <= k < n ==> keep@[k] == survives(#[trigger] all[k], all),
            pred == (|m: MatchView| survives(m, all)),
            match_views(raw@) == all.skip(t as int),
            match_views(out@) == all.take(t as int).filter(pred),
        decreases n - t,
    {
        let ghost rest = raw@;
        assert(match_views(raw@).len() == raw@.len());
        assert(all.skip(t as int).len() == n - t);
        assert(match_views(raw@)[0] == raw@[0]@);
        assert(all.skip(t as int)[0] == all[t as int]);
        let m = raw.remove(0);
        proof {
            assert(rest[0]@ == all[t as int]);
            assert forall|k: int| 0 <= k < raw@.len() implies #[trigger] match_views(raw@)[k] == all.skip(t + 1)[k] by {
                assert(raw@[k] == rest[k + 1]);
                assert(match_views(rest)[k + 1] == rest[k + 1]@);
            }
            assert(match_views(raw@) =~= all.skip(t + 1));
            assert(all.take(t + 1).drop_last() =~= all.take(t as int));
            assert(all.take(t + 1).filter(pred) == if pred(all[t as int]) {
                all.take(t as int).filter(pred).push(all[t as int])
            } else {
                all.take(t as int).filter(pred)
            }) by {
                reveal(Seq::filter);
            }
        }
        if keep[t] {
            let ghost before = out@;
            out.push(m);
            assert(match_views(out@) =~= match_views(before).push(all[t as int]));
        }
        t = t + 1;
    }
    assert(all.take(n as int) =~= all);
    out
}

/// `c` holds a line with id `id`.
pub open spec fn has_id(c: Seq<LineView>, id: Seq<char>) -> bool {
    exists|j: int| 0 <= j < c.len() && #[trigger] c[j].id == id
}

/// No two lines of `c` share an id.
pub open spec fn distinct_ids(c: Seq<LineView>) -> bool {
    forall|i: int, j: int| 0 <= i < c.len() && 0 <= j < c.len() && i != j ==> #[trigger] c[i].id != #[trigger] c[j].id
}

/// The catalogue that a list of line definitions gives when keyed by id:
/// a later definition replaces an earlier one with the same id, in its
/// place; a new id is appended.
pub open spec fn catalogue_of(lines: Seq<LineView>) -> Seq<LineView>
    decreases lines.len(),
{
    if lines.len() == 0 {
        Seq::empty()
    } else {
        let c = catalogue_of(lines.drop_last());
        let l = lines.last();
        if has_id(c, l.id) {
            c.update(choose|j: int| 0 <= j < c.len() && #[trigger] c[j].id == l.id, l)
        } else {
            c.push(l)
        }
    }
}

/// Lemma: in a catalogue without repeated ids, the line with a given id
/// is at one place only.
pub proof fn lemma_id_position_unique(c: Seq<LineView>, id: Seq<char>, j: int)
    requires
        distinct_ids(c),
        0 <= j < c.len(),
        c[j].id == id,
    ensures
        (choose|k: int| 0 <= k < c.len() && #[trigger] c[k].id == id) == j,
{
    let k = choose|k: int| 0 <= k < c.len() && #[trigger] c[k].id == id;
    assert(0 <= k < c.len() && c[k].id == id);
}

/// The id of every matched line.
pub open spec fn matched_id(ms: Seq<MatchView>, id: Seq<char>) -> bool {
    exists|k: int| 0 <= k < ms.len() && #[trigger] ms[k].line.id == id
}

/// Strictly increasing in [`text_lt`] order (so also free of duplicates).
pub open spec fn strictly_sorted(s: Seq<Seq<char>>) -> bool {
    forall|i: int, j: int| 0 <= i < j < s.len() ==> text_lt(#[trigger] s[i], #[trigger] s[j])
}

/// Owns a line catalogue and its segment index, so a caller can build the
/// pair once and ask which lines an incident affects.
pub struct LineMatcher {
    lines: Vec<LineDefinition>,
    registry: SegmentRegistry,
}

impl LineMatcher {
    /// The catalogue this matcher holds.
    pub closed spec fn catalogue(&self) -> Seq<LineView> {
        line_views(self.lines@)
    }

    #[verifier::type_invariant]
    closed spec fn well_formed(&self) -> bool {
        &&& distinct_ids(line_views(self.lines@))
        &&& self.registry@ == segment_users(line_views(self.lines@))
    }

    /// Where `id` stands in `lines`, if some line has it.
    fn position_of(lines: &Vec<LineDefinition>, id: &str) -> (r: Option<usize>)
        ensures
            match r {
                Some(j) => j < lines@.len() && line_views(lines@)[j as int].id == id@,
                None => !has_id(line_views(lines@), id@),
            },
    {
        let mut j: usize = 0;
        while j < lines.len()
            invariant
                j <= lines@.len(),
                forall|k: int| 0 <= k < j ==> #[trigger] line_views(lines@)[k].id != id@,
            decreases lines@.len() - j,
        {
            assert(line_views(lines@)[j as int] == lines@[j as int]@);
            if text_eq(lines[j].id.as_str(), id) {
                return Some(j);
            }
            j = j + 1;
        }
        None
    }

    /// Builds the matcher from a list of line definitions, keyed by id (a
    /// later definition with an id replaces an earlier one).
    pub fn new(lines: &[LineDefinition]) -> (r: LineMatcher)
        ensures
            r.catalogue() == catalogue_of(line_views(lines@)),
            distinct_ids(r.catalogue()),
    {
        let ghost lv = line_views(lines@);
        let mut out: Vec<LineDefinition> = Vec::new();
        let mut i: usize = 0;
        while i < lines.len()
            invariant
                i <= lines@.len(),
                lv == line_views(lines@),
                line_views(out@) == catalogue_of(lv.take(i as int)),
                distinct_ids(line_views(out@)),
            decreases lines@.len() - i,
        {
            let line = &lines[i];
            let copy = line.duplicate();
            assert(lv.take(i + 1).drop_last() =~= lv.take(i as int));
            assert(lv.take(i + 1).last() == line@);
            let ghost c = line_views(out@);
            match Self::position_of(&out, line.id.as_str()) {
                Some(j) => {
                    proof {
                        lemma_id_position_unique(c, line@.id, j as int);
                    }
                    let _old = out.remove(j);
                    out.insert(j, copy);
                    assert(line_views(out@) =~= c.update(j as int, line@));
                },
                None => {
                    out.push(copy);
                    assert(line_views(out@) =~= c.push(line@));
                },
            }
            i = i + 1;
        }
        assert(lv.take(lines@.len() as int) =~= lv);
        let registry = SegmentRegistry::new(out.as_slice());
        LineMatcher { lines: out, registry }
    }

    /// Every catalogue line id this incident matches, sorted and free of
    /// duplicates.
    pub fn affected_line_ids(&self, incident: &IncidentMessage) -> (r: Vec<String>)
        ensures
            strictly_sorted(texts(r@)),
            forall|id: Seq<char>|
                texts(r@).contains(id) <==> matched_id(
                    affected_lines(self.catalogue(), incident@, segment_users(self.catalogue())),
                    id,
                ),
    {
        proof {
            use_type_invariant(self);
        }
        let ms = lines_affected_by(incident, self.lines.as_slice(), &self.registry);
        let ghost mv = match_views(ms@);
        let mut ids: Vec<String> = Vec::new();
        let mut keys: Vec<Vec<char>> = Vec::new();
        let mut i: usize = 0;
        while i < ms.len()
            invariant
                i <= ms@.len(),
                mv == match_views(ms@),
                keys@.len() == ids@.len(),
                forall|k: int| 0 <= k < keys@.len() ==> #[trigger] keys@[k]@ == ids@[k]@,
                strictly_sorted(texts(ids@)),
                forall|id: Seq<char>| texts(ids@).contains(id) <==> matched_id(mv.take(i as int), id),
            decreases ms@.len() - i,
        {
            let id = &ms[i].line.id;
            assert(mv[i as int] == ms@[i as int]@);
            let x = chars_of(id.as_str());
            let ghost ts = texts(ids@);
            let mut p: usize = 0;
            while p < keys.len() && text_less(&keys[p], &x)
                invariant
                    p <= keys@.len(),
                    keys@.len() == ids@.len(),
                    forall|k: int| 0 <= k < keys@.len() ==> #[trigger] keys@[k]@ == ids@[k]@,
                    ts == texts(ids@),
                    forall|k: int| 0 <= k < p ==> text_lt(#[trigger] ts[k], x@),
                decreases keys@.len() - p,
            {
                assert(keys@[p as int]@ == ts[p as int]);
                p = p + 1;
            }
            let present = p < keys.len() && !text_less(&x, &keys[p]);
            proof {
                assert forall|id2: Seq<char>| matched_id(mv.take(i + 1), id2) <==> (matched_id(mv.take(i as int), id2) || id2 == x@) by {
                    if matched_id(mv.take(i + 1), id2) {
                        let k = choose|k: int| 0 <= k < i + 1 && #[trigger] mv.take(i + 1)[k].line.id == id2;
                        if k < i {
                            assert(mv.take(i as int)[k].line.id == id2);
                        }
                    }
                    if matched_id(mv.take(i as int), id2) {
                        let k = choose|k: int| 0 <= k < i && #[trigger] mv.take(i as int)[k].line.id == id2;
                        assert(mv.take(i + 1)[k].line.id == id2);
                    }
                    if id2 == x@ {
                        assert(mv.take(i + 1)[i as int].line.id == id2);
                    }
                }
            }
            if present {
                proof {
                    assert(keys@[p as int]@ == ts[p as int]);
                    if ts[p as int] != x@ {
                        lemma_text_lt_total(ts[p as int], x@);
                    }
                    assert(ts[p as int] == x@);
                    assert(ts.contains(x@));
                    assert(x@ == mv[i as int].line.id);
                    assert forall|id2: Seq<char>| texts(ids@).contains(id2) <==> matched_id(mv.take(i + 1), id2) by {
                    }
                }
            } else {
                proof {
                    if p < keys@.len() {
                        assert(keys@[p as int]@ == ts[p as int]);
                    }
                }
                let ghost old_ids = ids@;
                let ghost old_keys = keys@;
                ids.insert(p, id.clone());
                keys.insert(p, x);
                proof {
                    assert(texts(ids@) =~= ts.insert(p as int, x@));
                    let nt = texts(ids@);
                    assert forall|a: int, b: int| 0 <= a < b < nt.len() implies text_lt(#[trigger] nt[a], #[trigger] nt[b]) by {
                        if b < p {
                            assert(nt[a] == ts[a] && nt[b] == ts[b]);
                        } else if b == p {
                            assert(nt[a] == ts[a]);
                        } else if a < p {
                            assert(nt[a] == ts[a]);
                            assert(nt[b] == ts[b - 1]);
                            assert(text_lt(x@, ts[p as int]));
                            if b - 1 > p {
                                lemma_text_lt_transitive(x@, ts[p as int], ts[b - 1]);
                            }
                            lemma_text_lt_transitive(ts[a], x@, ts[b - 1]);
                        } else if a == p {
                            assert(nt[b] == ts[b - 1]);
                            if b - 1 > p {
                                lemma_text_lt_transitive(x@, ts[p as int], ts[b - 1]);
                            }
                        } else {
                            assert(nt[a] == ts[a - 1]);
                            assert(nt[b] == ts[b - 1]);
                        }
                    }
                    assert forall|k: int| 0 <= k < keys@.len() implies #[trigger] keys@[k]@ == ids@[k]@ by {
                        if k < p {
                            assert(keys@[k] == old_keys[k] && ids@[k] == old_ids[k]);
                        } else if k > p {
                            assert(keys@[k] == old_keys[k - 1] && ids@[k] == old_ids[k - 1]);
                        }
                    }
                    assert forall|id2: Seq<char>| nt.contains(id2) <==> (ts.contains(id2) || id2 == x@) by {
                        if nt.contains(id2) {
                            let k = choose|k: int| 0 <= k < nt.len() && nt[k] == id2;
                            if k < p {
                                assert(ts[k] == id2);
                            } else if k > p {
                                assert(ts[k - 1] == id2);
                            }
                        }
                        if ts.contains(id2) {
                            let k = choose|k: int| 0 <= k < ts.len() && ts[k] == id2;
                            if k < p {
                                assert(nt[k] == id2);
                            } else {
                                assert(nt[k + 1] == id2);
                            }
                        }
                        if id2 == x@ {
                            assert(nt[p as int] == id2);
                        }
                    }
                    assert(x@ == mv[i as int].line.id);
                    assert forall|id2: Seq<char>| texts(ids@).contains(id2) <==> matched_id(mv.take(i + 1), id2) by {
                    }
                }
            }
            i = i + 1;
        }
        assert(mv.take(ms@.len() as int) =~= mv);
        ids
    }

    /// True if `line_id` is the id of a catalogue line.
    pub fn knows_line(&self, line_id: &str) -> (r: bool)
        ensures
            r == has_id(self.catalogue(), line_id@),
    {
        match Self::position_of(&self.lines, line_id) {
            Some(_) => true,
            None => false,
        }
    }

    /// How many lines the catalogue holds.
    pub fn line_count(&self) -> (r: usize)
        ensures
            r == self.catalogue().len(),
    {
        self.lines.len()
    }
}

} // verus!
