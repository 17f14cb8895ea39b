//! Laws of incident matching, stated over the matcher's model.

use vstd::prelude::*;
use crate::catalogue::{IncidentMessage, LineView};
use crate::catalogue::{spec_is_exclusive_to, spec_is_shared, touched_segments};
use crate::matcher::{
    operator_overlap, affected_lines, ascii_upper_incident, catalogue_of, distinct_ids, has_id, haystack, keyword_vetoed, match_line,
    precise_operator, raw_matches, survives, station_hits, keyword_hits, IncidentView, MatchScope, MatchView,
};
use crate::text::{ascii_upper, contains_seq, lemma_ascii_upper_idempotent, lowercase, texts};

verus! {

broadcast use vstd::seq_lib::group_filter_ensures;

/// The line is not vetoed by an excluded keyword and matches at some tier.
pub open spec fn line_matches(
    l: LineView,
    inc: IncidentView,
    u: Set<(Seq<char>, Seq<char>)>,
    h: Seq<char>,
) -> bool {
    !keyword_vetoed(l, h) && match_line(l, inc, u, h) is Some
}

/// Some catalogue line that operator `op` runs matches more precisely
/// than operator-only.
pub open spec fn precise_by_lines(
    lines: Seq<LineView>,
    inc: IncidentView,
    u: Set<(Seq<char>, Seq<char>)>,
    h: Seq<char>,
    op: Seq<char>,
) -> bool {
    exists|k: int|
        0 <= k < lines.len() && #[trigger] line_matches(lines[k], inc, u, h)
            && match_line(lines[k], inc, u, h).unwrap().scope != MatchScope::OperatorOnly
            && lines[k].operators.contains(op)
}

/// Lemma: a match of a line is a match of that very line.
pub proof fn lemma_match_line_is_for_its_line(
    l: LineView,
    inc: IncidentView,
    u: Set<(Seq<char>, Seq<char>)>,
    h: Seq<char>,
)
    ensures
        match_line(l, inc, u, h) matches Some(m) ==> m.line == l,
{
}

/// Lemma: the unfiltered matches are exactly the matches of the lines that
/// match.
pub proof fn lemma_raw_matches_contains(
    lines: Seq<LineView>,
    inc: IncidentView,
    u: Set<(Seq<char>, Seq<char>)>,
    h: Seq<char>,
    m: MatchView,
)
    ensures
        raw_matches(lines, inc, u, h).contains(m) <==> exists|k: int|
            0 <= k < lines.len() && #[trigger] line_matches(lines[k], inc, u, h) && match_line(
                lines[k],
                inc,
                u,
                h,
            ) == Some(m),
    decreases lines.len(),
{
    if lines.len() > 0 {
        let init = lines.drop_last();
        let l = lines.last();
        lemma_raw_matches_contains(init, inc, u, h, m);
        let prev = raw_matches(init, inc, u, h);
        let cur = raw_matches(lines, inc, u, h);
        if cur.contains(m) {
            if prev.contains(m) {
                let k = choose|k: int|
                    0 <= k < init.len() && #[trigger] line_matches(init[k], inc, u, h) && match_line(
                        init[k],
                        inc,
                        u,
                        h,
                    ) == Some(m);
                assert(lines[k] == init[k]);
            } else {
                let i = choose|i: int| 0 <= i < cur.len() && cur[i] == m;
                assert(i == prev.len());
                assert(line_matches(lines[lines.len() - 1], inc, u, h));
            }
        }
        if exists|k: int|
            0 <= k < lines.len() && #[trigger] line_matches(lines[k], inc, u, h) && match_line(
                lines[k],
                inc,
                u,
                h,
            ) == Some(m) {
            let k = choose|k: int|
                0 <= k < lines.len() && #[trigger] line_matches(lines[k], inc, u, h) && match_line(
                    lines[k],
                    inc,
                    u,
                    h,
                ) == Some(m);
            if k < init.len() {
                assert(init[k] == lines[k]);
                assert(line_matches(init[k], inc, u, h));
                assert(prev.contains(m));
                let i = choose|i: int| 0 <= i < prev.len() && prev[i] == m;
                assert(cur.contains(m)) by {
                    if !keyword_vetoed(l, h) && match_line(l, inc, u, h) is Some {
                        assert(cur[i] == m);
                    } else {
                        assert(cur == prev);
                    }
                }
            } else {
                assert(cur[cur.len() - 1] == m);
            }
        }
    }
}

/// Lemma: which operators have a precise match depends on which lines
/// match, not on where they stand.
pub proof fn lemma_precise_operator_by_lines(
    lines: Seq<LineView>,
    inc: IncidentView,
    u: Set<(Seq<char>, Seq<char>)>,
    h: Seq<char>,
    op: Seq<char>,
)
    ensures
        precise_operator(raw_matches(lines, inc, u, h), op) == precise_by_lines(lines, inc, u, h, op),
{
    let raw = raw_matches(lines, inc, u, h);
    if precise_operator(raw, op) {
        let i = choose|i: int|
            0 <= i < raw.len() && raw[i].scope != MatchScope::OperatorOnly
                && #[trigger] raw[i].line.operators.contains(op);
        lemma_raw_matches_contains(lines, inc, u, h, raw[i]);
        assert(raw.contains(raw[i]));
        let k = choose|k: int|
            0 <= k < lines.len() && #[trigger] line_matches(lines[k], inc, u, h) && match_line(
                lines[k],
                inc,
                u,
                h,
            ) == Some(raw[i]);
        lemma_match_line_is_for_its_line(lines[k], inc, u, h);
        assert(precise_by_lines(lines, inc, u, h, op));
    }
    if precise_by_lines(lines, inc, u, h, op) {
        let k = choose|k: int|
            0 <= k < lines.len() && #[trigger] line_matches(lines[k], inc, u, h)
                && match_line(lines[k], inc, u, h).unwrap().scope != MatchScope::OperatorOnly
                && lines[k].operators.contains(op);
        let m = match_line(lines[k], inc, u, h).unwrap();
        lemma_match_line_is_for_its_line(lines[k], inc, u, h);
        lemma_raw_matches_contains(lines, inc, u, h, m);
        assert(raw.contains(m));
        let i = choose|i: int| 0 <= i < raw.len() && raw[i] == m;
        assert(raw[i].line.operators.contains(op));
    }
}

/// Law: which matches come back depends only on which lines the catalogue
/// holds, not on their order (nor on repetitions); in particular the
/// operator-only filter, which looks at every match, gives the same
/// verdict in any order.
pub proof fn law_matches_independent_of_catalogue_order(
    c1: Seq<LineView>,
    c2: Seq<LineView>,
    inc: IncidentView,
    u: Set<(Seq<char>, Seq<char>)>,
)
    requires
        forall|l: LineView| c1.contains(l) <==> c2.contains(l),
    ensures
        forall|m: MatchView|
            affected_lines(c1, inc, u).contains(m) <==> affected_lines(c2, inc, u).contains(m),
{
    let h = haystack(inc);
    let r1 = raw_matches(c1, inc, u, h);
    let r2 = raw_matches(c2, inc, u, h);
    assert forall|op: Seq<char>| precise_operator(r1, op) == precise_operator(r2, op) by {
        lemma_precise_operator_by_lines(c1, inc, u, h, op);
        lemma_precise_operator_by_lines(c2, inc, u, h, op);
        if precise_by_lines(c1, inc, u, h, op) {
            let k = choose|k: int|
                0 <= k < c1.len() && #[trigger] line_matches(c1[k], inc, u, h)
                    && match_line(c1[k], inc, u, h).unwrap().scope != MatchScope::OperatorOnly
                    && c1[k].operators.contains(op);
            assert(c1.contains(c1[k]));
            let k2 = choose|k2: int| 0 <= k2 < c2.len() && c2[k2] == c1[k];
            assert(line_matches(c2[k2], inc, u, h));
        }
        if precise_by_lines(c2, inc, u, h, op) {
            let k = choose|k: int|
                0 <= k < c2.len() && #[trigger] line_matches(c2[k], inc, u, h)
                    && match_line(c2[k], inc, u, h).unwrap().scope != MatchScope::OperatorOnly
                    && c2[k].operators.contains(op);
            assert(c2.contains(c2[k]));
            let k1 = choose|k1: int| 0 <= k1 < c1.len() && c1[k1] == c2[k];
            assert(line_matches(c1[k1], inc, u, h));
        }
    }
    assert forall|m: MatchView|
        affected_lines(c1, inc, u).contains(m) <==> affected_lines(c2, inc, u).contains(m) by {
        lemma_raw_matches_contains(c1, inc, u, h, m);
        lemma_raw_matches_contains(c2, inc, u, h, m);
        let p1 = |x: MatchView| survives(x, r1);
        let p2 = |x: MatchView| survives(x, r2);
        assert(survives(m, r1) == survives(m, r2)) by {
            if m.scope == MatchScope::OperatorOnly {
                assert forall|k: int| 0 <= k < m.line.operators.len() implies
                    precise_operator(r1, m.line.operators[k]) == precise_operator(r2, m.line.operators[k]) by {}
            }
        }
        if r1.contains(m) {
            let k = choose|k: int|
                0 <= k < c1.len() && #[trigger] line_matches(c1[k], inc, u, h) && match_line(
                    c1[k],
                    inc,
                    u,
                    h,
                ) == Some(m);
            assert(c1.contains(c1[k]));
            let k2 = choose|k2: int| 0 <= k2 < c2.len() && c2[k2] == c1[k];
            assert(line_matches(c2[k2], inc, u, h));
            assert(r2.contains(m));
        }
        if r2.contains(m) {
            let k = choose|k: int|
                0 <= k < c2.len() && #[trigger] line_matches(c2[k], inc, u, h) && match_line(
                    c2[k],
                    inc,
                    u,
                    h,
                ) == Some(m);
            assert(c2.contains(c2[k]));
            let k1 = choose|k1: int| 0 <= k1 < c1.len() && c1[k1] == c2[k];
            assert(line_matches(c1[k1], inc, u, h));
            assert(r1.contains(m));
        }
        if affected_lines(c1, inc, u).contains(m) {
            r1.lemma_filter_contains_rev(p1, m);
            let i = choose|i: int| 0 <= i < r1.filter(p1).len() && r1.filter(p1)[i] == m;
            assert(p1(m));
            assert(r2.contains(m));
            let j = choose|j: int| 0 <= j < r2.len() && r2[j] == m;
            assert(p2(r2[j]));
            assert(r2.filter(p2).contains(r2[j]));
        }
        if affected_lines(c2, inc, u).contains(m) {
            r2.lemma_filter_contains_rev(p2, m);
            let i = choose|i: int| 0 <= i < r2.filter(p2).len() && r2.filter(p2)[i] == m;
            assert(p2(m));
            assert(r1.contains(m));
            let j = choose|j: int| 0 <= j < r1.len() && r1[j] == m;
            assert(p1(r1[j]));
            assert(r1.filter(p1).contains(r1[j]));
        }
    }
}

/// Law: every match that comes back is some catalogue line's own match;
/// no line vetoed by one of its excluded keywords comes back; a
/// keyword-only match never comes back when the incident names operators
/// and none of them runs the line; an operator-only match comes back only
/// when no line sharing one of its operators matched more precisely.
pub proof fn law_returned_matches(
    lines: Seq<LineView>,
    inc: IncidentView,
    u: Set<(Seq<char>, Seq<char>)>,
    m: MatchView,
)
    requires
        affected_lines(lines, inc, u).contains(m),
    ensures
        lines.contains(m.line),
        !keyword_vetoed(m.line, haystack(inc)),
        match_line(m.line, inc, u, haystack(inc)) == Some(m),
        m.scope == MatchScope::KeywordOnly ==> (inc.operators.len() == 0 || operator_overlap(
            m.line,
            inc.operators,
        ).len() > 0),
        m.scope == MatchScope::OperatorOnly ==> forall|k: int|
            0 <= k < m.line.operators.len() ==> !#[trigger] precise_by_lines(
                lines,
                inc,
                u,
                haystack(inc),
                m.line.operators[k],
            ),
{
    let h = haystack(inc);
    let raw = raw_matches(lines, inc, u, h);
    let p = |x: MatchView| survives(x, raw);
    raw.lemma_filter_contains_rev(p, m);
    let i = choose|i: int| 0 <= i < raw.filter(p).len() && raw.filter(p)[i] == m;
    assert(p(m));
    lemma_raw_matches_contains(lines, inc, u, h, m);
    let k = choose|k: int|
        0 <= k < lines.len() && #[trigger] line_matches(lines[k], inc, u, h) && match_line(
            lines[k],
            inc,
            u,
            h,
        ) == Some(m);
    lemma_match_line_is_for_its_line(lines[k], inc, u, h);
    assert(lines[k] == m.line);
    if m.scope == MatchScope::OperatorOnly {
        assert forall|j: int| 0 <= j < m.line.operators.len() implies !#[trigger] precise_by_lines(
            lines,
            inc,
            u,
            h,
            m.line.operators[j],
        ) by {
            lemma_precise_operator_by_lines(lines, inc, u, h, m.line.operators[j]);
        }
    }
}

/// Law: a line that matches more precisely than operator-only always
/// comes back; the operator-only filter never drops it.
pub proof fn law_precise_matches_are_kept(
    lines: Seq<LineView>,
    inc: IncidentView,
    u: Set<(Seq<char>, Seq<char>)>,
    k: int,
)
    requires
        0 <= k < lines.len(),
        line_matches(lines[k], inc, u, haystack(inc)),
        match_line(lines[k], inc, u, haystack(inc)).unwrap().scope != MatchScope::OperatorOnly,
    ensures
        affected_lines(lines, inc, u).contains(match_line(lines[k], inc, u, haystack(inc)).unwrap()),
{
    let h = haystack(inc);
    let raw = raw_matches(lines, inc, u, h);
    let m = match_line(lines[k], inc, u, h).unwrap();
    let p = |x: MatchView| survives(x, raw);
    lemma_raw_matches_contains(lines, inc, u, h, m);
    assert(raw.contains(m));
    let i = choose|i: int| 0 <= i < raw.len() && raw[i] == m;
    assert(p(raw[i]));
    assert(raw.filter(p).contains(raw[i]));
}

/// Law: matching reads the incident's summary, description, operator
/// list and station list, and nothing else.
pub proof fn law_reads_four_incident_fields(
    a: IncidentMessage,
    b: IncidentMessage,
    lines: Seq<LineView>,
    u: Set<(Seq<char>, Seq<char>)>,
)
    requires
        a.summary@ == b.summary@,
        a.description@ == b.description@,
        texts(a.operators@) == texts(b.operators@),
        texts(a.affected_stations@) == texts(b.affected_stations@),
    ensures
        affected_lines(lines, a@, u) == affected_lines(lines, b@, u),
{
    assert(a@ == b@);
}

/// Two incidents with the same operator and station lists give the same
/// matches before the operator-only filter, whatever their texts, once the
/// folded text is fixed.
proof fn lemma_raw_matches_read_lists_and_folded_text(
    lines: Seq<LineView>,
    a: IncidentView,
    b: IncidentView,
    u: Set<(Seq<char>, Seq<char>)>,
    h: Seq<char>,
)
    requires
        a.operators == b.operators,
        a.affected_stations == b.affected_stations,
    ensures
        raw_matches(lines, a, u, h) == raw_matches(lines, b, u, h),
    decreases lines.len(),
{
    if lines.len() > 0 {
        lemma_raw_matches_read_lists_and_folded_text(lines.drop_last(), a, b, u, h);
        assert(match_line(lines.last(), a, u, h) == match_line(lines.last(), b, u, h));
    }
}

/// Law: keywords and excluded keywords are matched case-insensitively:
/// two incidents with the same operator and station lists whose summary
/// and description, joined by a space, lowercase to the same text affect
/// the same lines in the same way.
pub proof fn law_text_is_matched_case_insensitively(
    lines: Seq<LineView>,
    a: IncidentView,
    b: IncidentView,
    u: Set<(Seq<char>, Seq<char>)>,
)
    ensures
        a.operators == b.operators && a.affected_stations == b.affected_stations && lowercase(
            a.summary + seq![' '] + a.description,
        ) == lowercase(b.summary + seq![' '] + b.description) ==> affected_lines(lines, a, u)
            == affected_lines(lines, b, u),
{
    if a.operators == b.operators && a.affected_stations == b.affected_stations && haystack(a) == haystack(b) {
        lemma_raw_matches_read_lists_and_folded_text(lines, a, b, u, haystack(a));
    }
}

/// Law: the case of ASCII letters in an incident's text does not change
/// its answer. [`crate::matcher::lines_affected_by`] answers every incident
/// as it answers the incident with those letters upper-cased; so two
/// incidents with the same lists whose summaries, and whose descriptions,
/// differ only in the case of ASCII letters (in particular, one the
/// upper-cased copy of the other) get the same answer.
pub proof fn law_ascii_case_is_ignored(
    lines: Seq<LineView>,
    a: IncidentView,
    b: IncidentView,
    u: Set<(Seq<char>, Seq<char>)>,
)
    ensures
        a.operators == b.operators && a.affected_stations == b.affected_stations && ascii_upper(a.summary)
            == ascii_upper(b.summary) && ascii_upper(a.description) == ascii_upper(b.description)
            ==> affected_lines(lines, ascii_upper_incident(a), u) == affected_lines(lines, ascii_upper_incident(b), u),
        a.operators == b.operators && a.affected_stations == b.affected_stations && b.summary == ascii_upper(
            a.summary,
        ) && b.description == ascii_upper(a.description) ==> affected_lines(lines, ascii_upper_incident(a), u)
            == affected_lines(lines, ascii_upper_incident(b), u),
{
    lemma_ascii_upper_idempotent(a.summary);
    lemma_ascii_upper_idempotent(a.description);
    if a.operators == b.operators && a.affected_stations == b.affected_stations && ascii_upper(a.summary)
        == ascii_upper(b.summary) && ascii_upper(a.description) == ascii_upper(b.description) {
        assert(ascii_upper_incident(a) == ascii_upper_incident(b));
    }
    if a.operators == b.operators && a.affected_stations == b.affected_stations && b.summary == ascii_upper(a.summary)
        && b.description == ascii_upper(a.description) {
        assert(ascii_upper_incident(a) == ascii_upper_incident(b));
    }
}

/// Law: a line that no excluded keyword of it vetoes, that calls at none of
/// the incident's stations, one of whose match keywords occurs in the
/// incident's text, and whose operators the incident does not contradict
/// (it names no operator, or names one the line runs) comes back matched
/// keyword-only, whatever stations the incident lists for other lines.
pub proof fn law_keyword_hit_matches_keyword_only(
    lines: Seq<LineView>,
    inc: IncidentView,
    u: Set<(Seq<char>, Seq<char>)>,
    k: int,
    kw: int,
)
    requires
        0 <= k < lines.len(),
        forall|e: int|
            0 <= e < lines[k].excluded_keywords.len() ==> !#[trigger] contains_seq(
                haystack(inc),
                lowercase(lines[k].excluded_keywords[e]),
            ),
        forall|i: int, j: int|
            0 <= i < inc.affected_stations.len() && 0 <= j < lines[k].stations.len() ==> #[trigger] lines[k].stations[j].crs
                != #[trigger] inc.affected_stations[i],
        0 <= kw < lines[k].match_keywords.len(),
        contains_seq(haystack(inc), lowercase(lines[k].match_keywords[kw])),
        inc.operators.len() == 0 || exists|o: int|
            0 <= o < lines[k].operators.len() && inc.operators.contains(#[trigger] lines[k].operators[o]),
    ensures
        exists|m: MatchView|
            #[trigger] affected_lines(lines, inc, u).contains(m) && m.line == lines[k] && m.scope
                == MatchScope::KeywordOnly,
{
    let l = lines[k];
    let h = haystack(inc);
    assert(!keyword_vetoed(l, h));
    let st = station_hits(l, inc.affected_stations);
    if st.len() > 0 {
        assert(st.contains(st[0]));
        inc.affected_stations.lemma_filter_contains_rev(|crs: Seq<char>| l.has_station(crs), st[0]);
        assert(inc.affected_stations.contains(st[0]));
        let i = choose|i: int| 0 <= i < inc.affected_stations.len() && inc.affected_stations[i] == st[0];
        assert(l.has_station(st[0]));
        let j = choose|j: int| 0 <= j < l.stations.len() && #[trigger] l.stations[j].crs == st[0];
        assert(lines[k].stations[j].crs != inc.affected_stations[i]);
        assert(false);
    }
    assert(st.len() == 0);
    let kws = keyword_hits(l, h);
    assert(kws.contains(l.match_keywords[kw]));
    if inc.operators.len() > 0 {
        let o = choose|o: int| 0 <= o < l.operators.len() && inc.operators.contains(#[trigger] l.operators[o]);
        assert(operator_overlap(l, inc.operators).contains(l.operators[o]));
    }
    assert(match_line(l, inc, u, h).unwrap().scope == MatchScope::KeywordOnly);
    law_precise_matches_are_kept(lines, inc, u, k);
    lemma_match_line_is_for_its_line(l, inc, u, h);
    let m = match_line(l, inc, u, h).unwrap();
    assert(affected_lines(lines, inc, u).contains(m));
}

/// The line's segment at one of `stations` (its first listing of that
/// station) is `s`.
pub open spec fn touches_segment(l: LineView, stations: Seq<Seq<char>>, s: Seq<char>) -> bool {
    exists|j: int| 0 <= j < stations.len() && #[trigger] l.segment_for(stations[j]) == Some(s)
}

/// The line calls at one of `stations`.
pub open spec fn calls_at_one_of(l: LineView, stations: Seq<Seq<char>>) -> bool {
    exists|j: int| 0 <= j < stations.len() && #[trigger] l.has_station(stations[j])
}

/// A station with a segment on a line is one the line calls at.
proof fn lemma_segment_means_station(l: LineView, crs: Seq<char>)
    ensures
        l.segment_for(crs) is Some ==> l.has_station(crs),
{
    if l.segment_for(crs) is Some {
        let i = choose|i: int| l.is_first_station(crs, i);
        assert(l.stations[i].crs == crs);
    }
}

/// The station hits are the incident's stations that the line calls at.
proof fn lemma_station_hits_members(l: LineView, stations: Seq<Seq<char>>, x: Seq<char>)
    ensures
        station_hits(l, stations).contains(x) <==> stations.contains(x) && l.has_station(x),
{
    let p = |crs: Seq<char>| l.has_station(crs);
    let st = station_hits(l, stations);
    if st.contains(x) {
        stations.lemma_filter_contains_rev(p, x);
        let i = choose|i: int| 0 <= i < st.len() && st[i] == x;
        assert(p(st[i]));
    }
    if stations.contains(x) && l.has_station(x) {
        let j = choose|j: int| 0 <= j < stations.len() && stations[j] == x;
        stations.lemma_filter_contains(p, j);
    }
}

/// The touched segments are the segments of the hit stations.
proof fn lemma_touched_segments_members(l: LineView, hits: Seq<Seq<char>>, s: Seq<char>)
    ensures
        touched_segments(l, hits).contains(s) <==> exists|i: int|
            0 <= i < hits.len() && #[trigger] l.segment_for(hits[i]) == Some(s),
    decreases hits.len(),
{
    if hits.len() > 0 {
        let init = hits.drop_last();
        let n = hits.len() - 1;
        lemma_touched_segments_members(l, init, s);
        let prev = touched_segments(l, init);
        let cur = touched_segments(l, hits);
        if exists|i: int| 0 <= i < hits.len() && #[trigger] l.segment_for(hits[i]) == Some(s) {
            let i = choose|i: int| 0 <= i < hits.len() && #[trigger] l.segment_for(hits[i]) == Some(s);
            if i < n {
                assert(init[i] == hits[i]);
                assert(prev.contains(s));
                let q = choose|q: int| 0 <= q < prev.len() && prev[q] == s;
                if !prev.contains(l.segment_for(hits.last()).unwrap()) && l.segment_for(hits.last()) is Some {
                    assert(cur[q] == s);
                }
            } else {
                if !prev.contains(s) {
                    assert(cur[cur.len() - 1] == s);
                }
            }
        }
        if cur.contains(s) {
            let q = choose|q: int| 0 <= q < cur.len() && cur[q] == s;
            if q < prev.len() && cur[q] == prev[q] {
                assert(prev.contains(s));
                let i = choose|i: int| 0 <= i < init.len() && #[trigger] l.segment_for(init[i]) == Some(s);
                assert(hits[i] == init[i]);
            } else {
                assert(l.segment_for(hits[n]) == Some(s));
            }
        }
    }
}

/// The segments a line's station match touched are the line's segments at
/// the incident's stations; and it has station hits exactly when it calls
/// at one of them.
proof fn lemma_touched_are_touches(l: LineView, stations: Seq<Seq<char>>, s: Seq<char>)
    ensures
        touched_segments(l, station_hits(l, stations)).contains(s) <==> touches_segment(l, stations, s),
        station_hits(l, stations).len() > 0 <==> calls_at_one_of(l, stations),
{
    let st = station_hits(l, stations);
    lemma_touched_segments_members(l, st, s);
    if touched_segments(l, st).contains(s) {
        let i = choose|i: int| 0 <= i < st.len() && #[trigger] l.segment_for(st[i]) == Some(s);
        assert(st.contains(st[i]));
        lemma_station_hits_members(l, stations, st[i]);
        let j = choose|j: int| 0 <= j < stations.len() && stations[j] == st[i];
        assert(l.segment_for(stations[j]) == Some(s));
    }
    if touches_segment(l, stations, s) {
        let j = choose|j: int| 0 <= j < stations.len() && #[trigger] l.segment_for(stations[j]) == Some(s);
        lemma_segment_means_station(l, stations[j]);
        assert(stations.contains(stations[j]));
        lemma_station_hits_members(l, stations, stations[j]);
        let i = choose|i: int| 0 <= i < st.len() && st[i] == stations[j];
        assert(l.segment_for(st[i]) == Some(s));
    }
    if st.len() > 0 {
        assert(st.contains(st[0]));
        lemma_station_hits_members(l, stations, st[0]);
        let j = choose|j: int| 0 <= j < stations.len() && stations[j] == st[0];
        assert(l.has_station(stations[j]));
    }
    if calls_at_one_of(l, stations) {
        let j = choose|j: int| 0 <= j < stations.len() && #[trigger] l.has_station(stations[j]);
        assert(stations.contains(stations[j]));
        lemma_station_hits_members(l, stations, stations[j]);
        assert(st.contains(stations[j]));
    }
}

/// How a line's station match is scoped, in terms of the segments it
/// touched as a set.
proof fn lemma_station_scope(l: LineView, inc: IncidentView, u: Set<(Seq<char>, Seq<char>)>, h: Seq<char>)
    requires
        calls_at_one_of(l, inc.affected_stations),
    ensures
        match_line(l, inc, u, h) is Some,
        match_line(l, inc, u, h).unwrap().scope == (if (exists|s: Seq<char>|
            #[trigger] touches_segment(l, inc.affected_stations, s)) && (forall|s: Seq<char>|
            #[trigger] touches_segment(l, inc.affected_stations, s) ==> spec_is_exclusive_to(u, s, l.id)) {
            MatchScope::ExclusiveSegment
        } else if exists|s: Seq<char>|
            #[trigger] touches_segment(l, inc.affected_stations, s) && spec_is_shared(u, s) {
            MatchScope::SharedSegment
        } else {
            MatchScope::StationHit
        }),
{
    let stations = inc.affected_stations;
    let st = station_hits(l, stations);
    let segs = touched_segments(l, st);
    lemma_touched_are_touches(l, stations, Seq::empty());
    assert forall|s: Seq<char>| segs.contains(s) <==> #[trigger] touches_segment(l, stations, s) by {
        lemma_touched_are_touches(l, stations, s);
    }
    let all_excl = segs.len() > 0 && forall|i: int|
        0 <= i < segs.len() ==> #[trigger] spec_is_exclusive_to(u, segs[i], l.id);
    let set_excl = (exists|s: Seq<char>| #[trigger] touches_segment(l, stations, s)) && (forall|s: Seq<char>|
        #[trigger] touches_segment(l, stations, s) ==> spec_is_exclusive_to(u, s, l.id));
    if all_excl {
        assert(segs.contains(segs[0]));
        assert(touches_segment(l, stations, segs[0]));
        assert forall|s: Seq<char>| #[trigger] touches_segment(l, stations, s) implies spec_is_exclusive_to(u, s, l.id) by {
            assert(segs.contains(s));
            let i = choose|i: int| 0 <= i < segs.len() && segs[i] == s;
        }
    }
    if set_excl {
        let s0 = choose|s: Seq<char>| #[trigger] touches_segment(l, stations, s);
        assert(segs.contains(s0));
        assert forall|i: int| 0 <= i < segs.len() implies #[trigger] spec_is_exclusive_to(u, segs[i], l.id) by {
            assert(segs.contains(segs[i]));
            assert(touches_segment(l, stations, segs[i]));
        }
    }
    let any_shared = segs.len() > 0 && exists|i: int| 0 <= i < segs.len() && #[trigger] spec_is_shared(u, segs[i]);
    let set_shared = exists|s: Seq<char>| #[trigger] touches_segment(l, stations, s) && spec_is_shared(u, s);
    if any_shared {
        let i = choose|i: int| 0 <= i < segs.len() && #[trigger] spec_is_shared(u, segs[i]);
        assert(segs.contains(segs[i]));
        assert(touches_segment(l, stations, segs[i]));
    }
    if set_shared {
        let s0 = choose|s: Seq<char>| #[trigger] touches_segment(l, stations, s) && spec_is_shared(u, s);
        assert(segs.contains(s0));
        let i = choose|i: int| 0 <= i < segs.len() && segs[i] == s0;
        assert(spec_is_shared(u, segs[i]));
    }
    assert(all_excl == set_excl);
    assert(any_shared == set_shared);
}

/// Law: a station match is scoped by every segment it touched, not by some
/// of them, and not by the order in which the incident lists its stations.
/// It is exclusive-segment exactly when it touched a segment and every
/// segment it touched is carried by that line alone; otherwise it is
/// shared-segment exactly when one of the segments it touched is carried
/// by several lines; otherwise it is a plain station hit.
pub proof fn law_station_scope_follows_every_touched_segment(
    lines: Seq<LineView>,
    inc: IncidentView,
    u: Set<(Seq<char>, Seq<char>)>,
    m: MatchView,
)
    requires
        affected_lines(lines, inc, u).contains(m),
    ensures
        m.scope == MatchScope::ExclusiveSegment ==> calls_at_one_of(m.line, inc.affected_stations) && (exists|s: Seq<char>|
            #[trigger] touches_segment(m.line, inc.affected_stations, s)) && (forall|s: Seq<char>|
            #[trigger] touches_segment(m.line, inc.affected_stations, s) ==> spec_is_exclusive_to(u, s, m.line.id)),
        m.scope == MatchScope::SharedSegment ==> calls_at_one_of(m.line, inc.affected_stations) && (exists|s: Seq<char>|
            #[trigger] touches_segment(m.line, inc.affected_stations, s) && !spec_is_exclusive_to(u, s, m.line.id))
            && (exists|s: Seq<char>| #[trigger] touches_segment(m.line, inc.affected_stations, s) && spec_is_shared(u, s)),
        calls_at_one_of(m.line, inc.affected_stations) && (exists|s: Seq<char>|
            #[trigger] touches_segment(m.line, inc.affected_stations, s)) && (forall|s: Seq<char>|
            #[trigger] touches_segment(m.line, inc.affected_stations, s) ==> spec_is_exclusive_to(u, s, m.line.id))
            ==> m.scope == MatchScope::ExclusiveSegment,
        calls_at_one_of(m.line, inc.affected_stations) && (exists|s: Seq<char>|
            #[trigger] touches_segment(m.line, inc.affected_stations, s) && !spec_is_exclusive_to(u, s, m.line.id))
            && (exists|s: Seq<char>| #[trigger] touches_segment(m.line, inc.affected_stations, s) && spec_is_shared(u, s))
            ==> m.scope == MatchScope::SharedSegment,
{
    let h = haystack(inc);
    law_returned_matches(lines, inc, u, m);
    let l = m.line;
    lemma_touched_are_touches(l, inc.affected_stations, Seq::empty());
    if calls_at_one_of(l, inc.affected_stations) {
        lemma_station_scope(l, inc, u, h);
    }
}

/// Whether and how precisely a line matches does not depend on the order
/// (or repetition) of the incident's stations.
proof fn lemma_line_scope_by_station_members(
    l: LineView,
    a: IncidentView,
    b: IncidentView,
    u: Set<(Seq<char>, Seq<char>)>,
    h: Seq<char>,
)
    requires
        a.operators == b.operators,
        forall|x: Seq<char>| a.affected_stations.contains(x) <==> b.affected_stations.contains(x),
    ensures
        match_line(l, a, u, h) is Some <==> match_line(l, b, u, h) is Some,
        match_line(l, a, u, h) is Some ==> match_line(l, a, u, h).unwrap().scope == match_line(
            l,
            b,
            u,
            h,
        ).unwrap().scope && match_line(l, a, u, h).unwrap().line == match_line(l, b, u, h).unwrap().line,
{
    let sa = a.affected_stations;
    let sb = b.affected_stations;
    lemma_touched_are_touches(l, sa, Seq::empty());
    lemma_touched_are_touches(l, sb, Seq::empty());
    if calls_at_one_of(l, sa) {
        let j = choose|j: int| 0 <= j < sa.len() && #[trigger] l.has_station(sa[j]);
        assert(sa.contains(sa[j]));
        let k = choose|k: int| 0 <= k < sb.len() && sb[k] == sa[j];
        assert(l.has_station(sb[k]));
    }
    if calls_at_one_of(l, sb) {
        let j = choose|j: int| 0 <= j < sb.len() && #[trigger] l.has_station(sb[j]);
        assert(sb.contains(sb[j]));
        let k = choose|k: int| 0 <= k < sa.len() && sa[k] == sb[j];
        assert(l.has_station(sa[k]));
    }
    assert forall|s: Seq<char>|
        #![trigger touches_segment(l, sa, s)]
        #![trigger touches_segment(l, sb, s)]
        touches_segment(l, sa, s) <==> touches_segment(l, sb, s) by {
        if touches_segment(l, sa, s) {
            let j = choose|j: int| 0 <= j < sa.len() && #[trigger] l.segment_for(sa[j]) == Some(s);
            assert(sa.contains(sa[j]));
            let k = choose|k: int| 0 <= k < sb.len() && sb[k] == sa[j];
            assert(l.segment_for(sb[k]) == Some(s));
        }
        if touches_segment(l, sb, s) {
            let j = choose|j: int| 0 <= j < sb.len() && #[trigger] l.segment_for(sb[j]) == Some(s);
            assert(sb.contains(sb[j]));
            let k = choose|k: int| 0 <= k < sa.len() && sa[k] == sb[j];
            assert(l.segment_for(sa[k]) == Some(s));
        }
    }
    lemma_match_line_is_for_its_line(l, a, u, h);
    lemma_match_line_is_for_its_line(l, b, u, h);
    if calls_at_one_of(l, sa) {
        lemma_station_scope(l, a, u, h);
        lemma_station_scope(l, b, u, h);
        assert((exists|s: Seq<char>| #[trigger] touches_segment(l, sa, s)) == (exists|s: Seq<char>|
            #[trigger] touches_segment(l, sb, s)));
        assert((forall|s: Seq<char>| #[trigger] touches_segment(l, sa, s) ==> spec_is_exclusive_to(u, s, l.id)) == (
        forall|s: Seq<char>| #[trigger] touches_segment(l, sb, s) ==> spec_is_exclusive_to(u, s, l.id)));
        assert((exists|s: Seq<char>| #[trigger] touches_segment(l, sa, s) && spec_is_shared(u, s)) == (exists|
            s: Seq<char>,
        | #[trigger] touches_segment(l, sb, s) && spec_is_shared(u, s)));
    } else {
        assert(station_hits(l, sa).len() == 0);
        assert(station_hits(l, sb).len() == 0);
        assert(operator_overlap(l, a.operators) == operator_overlap(l, b.operators));
    }
}

/// Law: the order in which the incident lists its affected stations (and
/// any repetition among them) changes no answer: every line matched for
/// one listing is matched, with the same scope, for any listing of the
/// same stations.
pub proof fn law_station_order_does_not_change_scopes(
    lines: Seq<LineView>,
    a: IncidentView,
    b: IncidentView,
    u: Set<(Seq<char>, Seq<char>)>,
    m: MatchView,
)
    requires
        affected_lines(lines, a, u).contains(m),
        b.summary == a.summary,
        b.description == a.description,
        b.operators == a.operators,
        forall|x: Seq<char>| a.affected_stations.contains(x) <==> b.affected_stations.contains(x),
    ensures
        exists|m2: MatchView|
            #[trigger] affected_lines(lines, b, u).contains(m2) && m2.line == m.line && m2.scope == m.scope,
{
    let h = haystack(a);
    assert(haystack(b) == h);
    law_returned_matches(lines, a, u, m);
    let l = m.line;
    lemma_line_scope_by_station_members(l, a, b, u, h);
    let m2 = match_line(l, b, u, h).unwrap();
    let k = choose|k: int| 0 <= k < lines.len() && lines[k] == l;
    assert(line_matches(lines[k], b, u, h));
    if m2.scope != MatchScope::OperatorOnly {
        law_precise_matches_are_kept(lines, b, u, k);
        assert(affected_lines(lines, b, u).contains(m2));
    } else {
        let raw = raw_matches(lines, b, u, h);
        lemma_raw_matches_contains(lines, b, u, h, m2);
        assert(raw.contains(m2));
        assert forall|q: int| 0 <= q < m2.line.operators.len() implies !#[trigger] precise_operator(
            raw,
            m2.line.operators[q],
        ) by {
            let op = m2.line.operators[q];
            lemma_precise_operator_by_lines(lines, b, u, h, op);
            if precise_by_lines(lines, b, u, h, op) {
                let j = choose|j: int|
                    0 <= j < lines.len() && #[trigger] line_matches(lines[j], b, u, h)
                        && match_line(lines[j], b, u, h).unwrap().scope != MatchScope::OperatorOnly
                        && lines[j].operators.contains(op);
                lemma_line_scope_by_station_members(lines[j], a, b, u, h);
                assert(line_matches(lines[j], a, u, h));
                assert(precise_by_lines(lines, a, u, h, op));
                assert(m.line.operators[q] == op);
            }
        }
        let p = |x: MatchView| survives(x, raw);
        assert(p(m2));
        let i = choose|i: int| 0 <= i < raw.len() && raw[i] == m2;
        assert(p(raw[i]));
        assert(raw.filter(p).contains(raw[i]));
    }
}

/// Law: keying a list of definitions by id keeps every id exactly once,
/// and each kept definition is the last one given with its id.
pub proof fn law_catalogue_keeps_each_id_once(lines: Seq<LineView>)
    ensures
        distinct_ids(catalogue_of(lines)),
        forall|id: Seq<char>| has_id(catalogue_of(lines), id) <==> has_id(lines, id),
        forall|j: int| 0 <= j < catalogue_of(lines).len() ==> exists|k: int|
            0 <= k < lines.len() && lines[k] == #[trigger] catalogue_of(lines)[j] && forall|k2: int|
                k < k2 < lines.len() ==> #[trigger] lines[k2].id != lines[k].id,
    decreases lines.len(),
{
    if lines.len() > 0 {
        let init = lines.drop_last();
        let l = lines.last();
        let n = lines.len() - 1;
        law_catalogue_keeps_each_id_once(init);
        let c = catalogue_of(init);
        let r = catalogue_of(lines);
        if has_id(c, l.id) {
            let j0 = choose|j: int| 0 <= j < c.len() && #[trigger] c[j].id == l.id;
            assert(r == c.update(j0, l));
            assert forall|a: int, b: int| 0 <= a < r.len() && 0 <= b < r.len() && a != b implies #[trigger] r[a].id != #[trigger] r[b].id by {
                if a != j0 && b != j0 {
                    assert(c[a].id != c[b].id);
                } else if a == j0 {
                    assert(c[j0].id != c[b].id);
                } else {
                    assert(c[a].id != c[j0].id);
                }
            }
            assert forall|id: Seq<char>| has_id(r, id) <==> has_id(lines, id) by {
                if has_id(r, id) {
                    let j = choose|j: int| 0 <= j < r.len() && #[trigger] r[j].id == id;
                    if j == j0 {
                        assert(lines[n].id == id);
                    } else {
                        assert(c[j].id == id);
                        assert(has_id(init, id));
                        let k = choose|k: int| 0 <= k < init.len() && #[trigger] init[k].id == id;
                        assert(lines[k].id == id);
                    }
                }
                if has_id(lines, id) {
                    let k = choose|k: int| 0 <= k < lines.len() && #[trigger] lines[k].id == id;
                    if k == n {
                        assert(r[j0].id == id);
                    } else {
                        assert(init[k].id == id);
                        assert(has_id(init, id));
                        assert(has_id(c, id));
                        let j = choose|j: int| 0 <= j < c.len() && #[trigger] c[j].id == id;
                        if j == j0 {
                            assert(r[j0].id == id);
                        } else {
                            assert(r[j].id == id);
                        }
                    }
                }
            }
            assert forall|j: int| 0 <= j < r.len() implies exists|k: int|
                0 <= k < lines.len() && lines[k] == #[trigger] r[j] && forall|k2: int|
                    k < k2 < lines.len() ==> #[trigger] lines[k2].id != lines[k].id by {
                if j == j0 {
                    assert(lines[n] == r[j]);
                } else {
                    let k = choose|k: int|
                        0 <= k < init.len() && init[k] == #[trigger] c[j] && forall|k2: int|
                            k < k2 < init.len() ==> #[trigger] init[k2].id != init[k].id;
                    assert(c[j].id != c[j0].id);
                    assert(lines[k] == r[j]);
                    assert forall|k2: int| k < k2 < lines.len() implies #[trigger] lines[k2].id != lines[k].id by {
                        if k2 < n {
                            assert(init[k2].id != init[k].id);
                        }
                    }
                }
            }
        } else {
            assert(r == c.push(l));
            assert forall|a: int, b: int| 0 <= a < r.len() && 0 <= b < r.len() && a != b implies #[trigger] r[a].id != #[trigger] r[b].id by {
                if a < c.len() && b < c.len() {
                    assert(c[a].id != c[b].id);
                } else if a == c.len() {
                    assert(c[b].id != l.id);
                } else {
                    assert(c[a].id != l.id);
                }
            }
            assert forall|id: Seq<char>| has_id(r, id) <==> has_id(lines, id) by {
                if has_id(r, id) {
                    let j = choose|j: int| 0 <= j < r.len() && #[trigger] r[j].id == id;
                    if j == c.len() {
                        assert(lines[n].id == id);
                    } else {
                        assert(c[j].id == id);
                        let k = choose|k: int| 0 <= k < init.len() && #[trigger] init[k].id == id;
                        assert(lines[k].id == id);
                    }
                }
                if has_id(lines, id) {
                    let k = choose|k: int| 0 <= k < lines.len() && #[trigger] lines[k].id == id;
                    if k == n {
                        assert(r[c.len() as int].id == id);
                    } else {
                        assert(init[k].id == id);
                        assert(has_id(init, id));
                        let j = choose|j: int| 0 <= j < c.len() && #[trigger] c[j].id == id;
                        assert(r[j].id == id);
                    }
                }
            }
            assert forall|j: int| 0 <= j < r.len() implies exists|k: int|
                0 <= k < lines.len() && lines[k] == #[trigger] r[j] && forall|k2: int|
                    k < k2 < lines.len() ==> #[trigger] lines[k2].id != lines[k].id by {
                if j == c.len() {
                    assert(lines[n] == r[j]);
                } else {
                    let k = choose|k: int|
                        0 <= k < init.len() && init[k] == #[trigger] c[j] && forall|k2: int|
                            k < k2 < init.len() ==> #[trigger] init[k2].id != init[k].id;
                    assert(lines[k] == r[j]);
                    assert forall|k2: int| k < k2 < lines.len() implies #[trigger] lines[k2].id != lines[k].id by {
                        if k2 < n {
                            assert(init[k2].id != init[k].id);
                        } else {
                            assert(has_id(c, c[j].id));
                        }
                    }
                }
            }
        }
    }
}

} // verus!
