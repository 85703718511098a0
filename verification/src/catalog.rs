//! The profiles that a data directory offers.

use vstd::prelude::*;

use crate::profile::ProfileInfo;
use crate::text::{chars_of, copy_range, is_text_below, join3, lemma_text_order};
use crate::text::{lemma_text_order_transitive, pad, padded, same, same_chars, string_of};
use crate::text::text_below;

verus! {

// ── Sorting by title ─────────────────────────────────────────────────────

/// What is listed under a title.
pub trait Titled: Sized {
    spec fn title(self) -> Seq<char>;

    fn text(&self) -> (r: &str)
        ensures
            r@ == self.title(),
    ;
}

impl Titled for String {
    open spec fn title(self) -> Seq<char> {
        self@
    }

    fn text(&self) -> (r: &str) {
        self.as_str()
    }
}

/// The titles go upwards.
pub open spec fn ascending<E: Titled>(s: Seq<E>) -> bool {
    forall|i: int, j: int|
        0 <= i < j < s.len() ==> !text_below((#[trigger] s[j]).title(), (#[trigger] s[i]).title())
}

/// What `s` lists under a title, in its order.
pub open spec fn under<E: Titled>(s: Seq<E>, title: Seq<char>) -> Seq<E> {
    s.filter(|e: E| e.title() == title)
}

/// `r` lists what `s` lists, upwards by title; what has one title keeps its
/// order.
pub open spec fn is_sorted<E: Titled>(s: Seq<E>, r: Seq<E>) -> bool {
    &&& r.len() == s.len()
    &&& ascending(r)
    &&& forall|title: Seq<char>| #[trigger] under(r, title) == under(s, title)
}

proof fn lemma_under_inserted<E: Titled>(s: Seq<E>, r: Seq<E>, e: E, at: int)
    requires
        is_sorted(s, r),
        0 <= at <= r.len(),
        forall|i: int| 0 <= i < at ==> !text_below(e.title(), (#[trigger] r[i]).title()),
        at < r.len() ==> text_below(e.title(), r[at].title()),
    ensures
        is_sorted(s.push(e), r.insert(at, e)),
{
    let head = r.subrange(0, at);
    let tail = r.subrange(at, r.len() as int);
    let out = r.insert(at, e);
    assert forall|j: int| 0 <= j < tail.len() implies text_below(
        e.title(),
        (#[trigger] tail[j]).title(),
    ) by {
        if j > 0 {
            assert(!text_below(r[at + j].title(), r[at].title()));
            lemma_text_order(r[at + j].title(), r[at].title());
            if r[at + j].title() != r[at].title() {
                lemma_text_order_transitive(e.title(), r[at].title(), r[at + j].title());
            }
        }
    }
    assert forall|i: int, j: int| 0 <= i < j < out.len() implies !text_below(
        (#[trigger] out[j]).title(),
        (#[trigger] out[i]).title(),
    ) by {
        if i < at && j == at {
            assert(out[i] == r[i]);
        } else if i == at {
            assert(out[j] == tail[j - 1 - at]);
            lemma_text_order(e.title(), tail[j - 1 - at].title());
        } else {
            let k = if i < at {
                i
            } else {
                i - 1
            };
            let l = if j < at {
                j
            } else {
                j - 1
            };
            assert(out[i] == r[k] && out[j] == r[l]);
        }
    }
    assert forall|title: Seq<char>| #[trigger] under(out, title) == under(s.push(e), title) by {
        let p = |x: E| x.title() == title;
        let one = seq![e];
        assert(r =~= head + tail);
        assert(out =~= head + one + tail);
        assert(s.push(e) =~= s + one);
        Seq::filter_distributes_over_add(head, tail, p);
        Seq::filter_distributes_over_add(head + one, tail, p);
        Seq::filter_distributes_over_add(head, one, p);
        Seq::filter_distributes_over_add(s, one, p);
        assert(under(r, title) == under(s, title));
        if e.title() == title {
            assert(tail.all(|x: E| !p(x))) by {
                assert forall|j: int| 0 <= j < tail.len() implies !p(#[trigger] tail[j]) by {
                    lemma_text_order(e.title(), tail[j].title());
                }
            }
            tail.lemma_all_neg_filter_empty(p);
            assert(tail.filter(p) =~= Seq::empty());
            assert(out.filter(p) =~= (head + tail).filter(p) + one.filter(p));
        } else {
            assert(one.all(|x: E| !p(x)));
            one.lemma_all_neg_filter_empty(p);
            assert(one.filter(p) =~= Seq::empty());
            assert(out.filter(p) =~= (head + tail).filter(p));
            assert(s.push(e).filter(p) =~= s.filter(p));
        }
    }
}

/// Sorts upwards by title.
pub fn sort_by_title<E: Titled>(items: Vec<E>) -> (r: Vec<E>)
    ensures
        is_sorted(items@, r@),
{
    let mut rest = items;
    let ghost all = rest@;
    let mut r: Vec<E> = Vec::new();
    proof {
        assert(all.subrange(0, 0) =~= r@);
        assert(rest@ =~= all.subrange(0, all.len() as int));
    }
    while rest.len() > 0
        invariant
            r@.len() + rest@.len() == all.len(),
            rest@ == all.subrange(r@.len() as int, all.len() as int),
            is_sorted(all.subrange(0, r@.len() as int), r@),
        decreases rest.len(),
    {
        let ghost n = r@.len() as int;
        let e = rest.remove(0);
        let mut at: usize = 0;
        while at < r.len() && !is_text_below(e.text(), r[at].text())
            invariant
                at <= r@.len(),
                forall|i: int| 0 <= i < at ==> !text_below(e.title(), (#[trigger] r@[i]).title()),
            decreases r.len() - at,
        {
            at += 1;
        }
        proof {
            lemma_under_inserted(all.subrange(0, n), r@, e, at as int);
            assert(all.subrange(0, n).push(e) =~= all.subrange(0, n + 1));
        }
        r.insert(at, e);
        assert(rest@ =~= all.subrange(n + 1, all.len() as int));
    }
    assert(all.subrange(0, all.len() as int) =~= all);
    r
}

/// A sorted list holds what was listed, and nothing else.
pub proof fn lemma_sorted_keeps<E: Titled>(s: Seq<E>, r: Seq<E>, e: E)
    requires
        is_sorted(s, r),
    ensures
        s.contains(e) == r.contains(e),
{
    assert(under(r, e.title()) == under(s, e.title()));
    let p = |x: E| x.title() == e.title();
    if s.contains(e) {
        let i = choose|i: int| 0 <= i < s.len() && s[i] == e;
        s.lemma_filter_contains(p, i);
        r.lemma_filter_contains_rev(p, e);
    }
    if r.contains(e) {
        let i = choose|i: int| 0 <= i < r.len() && r[i] == e;
        r.lemma_filter_contains(p, i);
        s.lemma_filter_contains_rev(p, e);
    }
}

// ── File names ───────────────────────────────────────────────────────────

/// The text ends in `end`.
pub open spec fn ends_in(s: Seq<char>, end: Seq<char>) -> bool {
    s.len() >= end.len() && s.subrange(s.len() - end.len(), s.len() as int) == end
}

/// `s` without `end` behind it.
pub open spec fn without_end(s: Seq<char>, end: Seq<char>) -> Seq<char> {
    s.subrange(0, s.len() - end.len())
}

/// The stock of a profile's file.
pub open spec fn stem_of(file: Seq<char>) -> Option<Seq<char>> {
    if ends_in(file, ".json"@) {
        Some(without_end(file, ".json"@))
    } else {
        None
    }
}

/// `file` without every ".json" behind it.
pub open spec fn bare_name(file: Seq<char>) -> Seq<char>
    decreases file.len(),
{
    if ends_in(file, ".json"@) && ".json"@.len() > 0 {
        bare_name(without_end(file, ".json"@))
    } else {
        file
    }
}

fn ends_in_chars(s: &[char], end: &[char]) -> (r: bool)
    ensures
        r == ends_in(s@, end@),
{
    if s.len() < end.len() {
        return false;
    }
    let tail = copy_range(s, s.len() - end.len(), s.len());
    same_chars(tail.as_slice(), end)
}

/// The stock of a profile's file; nothing for other files.
pub fn profile_stem(file: &str) -> (r: Option<String>)
    ensures
        match stem_of(file@) {
            Some(t) => r matches Some(s) && s@ == t,
            None => r is None,
        },
{
    let s = chars_of(file);
    let end = chars_of(".json");
    if ends_in_chars(s.as_slice(), end.as_slice()) {
        let stem = copy_range(s.as_slice(), 0, s.len() - end.len());
        Some(string_of(stem.as_slice()))
    } else {
        None
    }
}

/// The name under which a profile's file is listed; nothing for other files.
pub fn listed_name(file: &str) -> (r: Option<String>)
    ensures
        if ends_in(file@, ".json"@) {
            r matches Some(s) && s@ == bare_name(file@)
        } else {
            r is None
        },
{
    proof {
        reveal_strlit(".json");
    }
    let mut s = chars_of(file);
    let end = chars_of(".json");
    if !ends_in_chars(s.as_slice(), end.as_slice()) {
        return None;
    }
    while ends_in_chars(s.as_slice(), end.as_slice())
        invariant
            end@ == ".json"@,
            end@.len() == 5,
            bare_name(s@) == bare_name(file@),
        decreases s.len(),
    {
        assert(ends_in(s@, end@));
        s = copy_range(s.as_slice(), 0, s.len() - end.len());
    }
    Some(string_of(s.as_slice()))
}

/// The names of the profiles among the first `n` files.
pub open spec fn names_among(files: Seq<String>, n: int) -> Seq<Seq<char>>
    decreases n,
{
    if n <= 0 {
        Seq::empty()
    } else if ends_in(files[n - 1]@, ".json"@) {
        names_among(files, n - 1).push(bare_name(files[n - 1]@))
    } else {
        names_among(files, n - 1)
    }
}

/// The characters of strings.
pub open spec fn texts(s: Seq<String>) -> Seq<Seq<char>> {
    s.map_values(|t: String| t@)
}

/// The names of the profiles among a directory's files, upwards.
pub fn list_names(files: &Vec<String>) -> (r: Vec<String>)
    ensures
        exists|names: Seq<String>| #[trigger]
            is_sorted(names, r@) && texts(names) == names_among(files@, files@.len() as int),
{
    let mut names: Vec<String> = Vec::new();
    let mut i: usize = 0;
    assert(texts(names@) =~= names_among(files@, 0));
    while i < files.len()
        invariant
            i <= files@.len(),
            texts(names@) == names_among(files@, i as int),
        decreases files.len() - i,
    {
        if let Some(n) = listed_name(files[i].as_str()) {
            let ghost before = names@;
            names.push(n);
            assert(texts(names@) =~= texts(before).push(n@));
        }
        i += 1;
    }
    let ghost found = names@;
    let r = sort_by_title(names);
    assert(is_sorted(found, r@));
    r
}

/// The line of a profile in a list.
pub open spec fn line_text(name: Seq<char>, info: Option<ProfileInfo>) -> Seq<char> {
    match info {
        Some(i) => padded(name, 40) + " "@ + padded(display_text(name, Some(i)), 30) + " ("@
            + i.film_type@ + ", "@ + i.support@ + ")"@,
        None => name,
    }
}

/// The line of a profile in a list: its name alone where it cannot be read.
pub fn profile_line(name: &str, info: &Option<ProfileInfo>) -> (r: String)
    ensures
        r@ == line_text(name@, *info),
{
    match info {
        Some(i) => {
            let shown = display_name(name, info);
            let mut r = join3(pad(name, 40).as_str(), " ", pad(shown.as_str(), 30).as_str());
            r.append(" (");
            r.append(i.film_type.as_str());
            r.append(", ");
            r.append(i.support.as_str());
            r.append(")");
            r
        },
        None => name.to_owned(),
    }
}

// ── Entries of a choice ──────────────────────────────────────────────────

/// A profile to choose: its stock, and the name that is shown for it.
#[derive(Clone, Debug)]
pub struct ProfileEntry {
    pub stock: String,
    pub display: String,
}

impl Titled for ProfileEntry {
    open spec fn title(self) -> Seq<char> {
        self.display@
    }

    fn text(&self) -> (r: &str) {
        self.display.as_str()
    }
}

/// The name shown for a stock.
pub open spec fn display_text(stock: Seq<char>, info: Option<ProfileInfo>) -> Seq<char> {
    match info {
        Some(i) => match i.name {
            Some(n) => n@,
            None => stock,
        },
        None => stock,
    }
}

/// A profile is one of a paper.
pub open spec fn prints(info: Option<ProfileInfo>) -> bool {
    info matches Some(i) && (i.support@ == "paper"@ || i.stage@ == "printing"@)
}

/// The name shown for a stock.
pub fn display_name(stock: &str, info: &Option<ProfileInfo>) -> (r: String)
    ensures
        r@ == display_text(stock@, *info),
{
    match info {
        Some(i) => match &i.name {
            Some(n) => n.clone(),
            None => stock.to_owned(),
        },
        None => stock.to_owned(),
    }
}

/// A profile is one of a paper; one that cannot be read is not.
pub fn is_print(info: &Option<ProfileInfo>) -> (r: bool)
    ensures
        r == prints(*info),
{
    match info {
        Some(i) => same(i.support.as_str(), "paper") || same(i.stage.as_str(), "printing"),
        None => false,
    }
}

/// A file of the profile directory, and what it says where it can be read.
pub struct FoundProfile {
    pub file: String,
    pub info: Option<ProfileInfo>,
}

/// Stock and shown name of an entry.
pub open spec fn entry_text(e: ProfileEntry) -> (Seq<char>, Seq<char>) {
    (e.stock@, e.display@)
}

/// The entries of the papers, or of the others, among the first `n` files.
pub open spec fn entries_among(found: Seq<FoundProfile>, paper: bool, n: int) -> Seq<
    (Seq<char>, Seq<char>),
>
    decreases n,
{
    if n <= 0 {
        Seq::empty()
    } else {
        let before = entries_among(found, paper, n - 1);
        match stem_of(found[n - 1].file@) {
            Some(stock) => if prints(found[n - 1].info) == paper {
                before.push((stock, display_text(stock, found[n - 1].info)))
            } else {
                before
            },
            None => before,
        }
    }
}

/// `r` is the entries of the papers, or of the others, upwards by name.
pub open spec fn are_entries(found: Seq<FoundProfile>, paper: bool, r: Seq<ProfileEntry>) -> bool {
    exists|list: Seq<ProfileEntry>| #[trigger]
        is_sorted(list, r) && list.map_values(|e: ProfileEntry| entry_text(e)) == entries_among(
            found,
            paper,
            found.len() as int,
        )
}

/// The films and the papers that a directory's files offer.
pub fn scan_profiles(found: &Vec<FoundProfile>) -> (r: (Vec<ProfileEntry>, Vec<ProfileEntry>))
    ensures
        are_entries(found@, false, r.0@),
        are_entries(found@, true, r.1@),
{
    let mut films: Vec<ProfileEntry> = Vec::new();
    let mut papers: Vec<ProfileEntry> = Vec::new();
    let mut i: usize = 0;
    let ghost f = |e: ProfileEntry| entry_text(e);
    proof {
        assert(films@.map_values(f) =~= entries_among(found@, false, 0));
        assert(papers@.map_values(f) =~= entries_among(found@, true, 0));
    }
    while i < found.len()
        invariant
            i <= found@.len(),
            f == (|e: ProfileEntry| entry_text(e)),
            films@.map_values(f) == entries_among(found@, false, i as int),
            papers@.map_values(f) == entries_among(found@, true, i as int),
        decreases found.len() - i,
    {
        if let Some(stock) = profile_stem(found[i].file.as_str()) {
            let display = display_name(stock.as_str(), &found[i].info);
            let paper = is_print(&found[i].info);
            let ghost films_before = films@;
            let ghost papers_before = papers@;
            let e = ProfileEntry { stock, display };
            if paper {
                papers.push(e);
            } else {
                films.push(e);
            }
            proof {
                if paper {
                    assert(papers@.map_values(f) =~= papers_before.map_values(f).push(f(e)));
                } else {
                    assert(films@.map_values(f) =~= films_before.map_values(f).push(f(e)));
                }
            }
        }
        i += 1;
    }
    let ghost film_list = films@;
    let ghost paper_list = papers@;
    let a = sort_by_title(films);
    let b = sort_by_title(papers);
    proof {
        assert(is_sorted(film_list, a@));
        assert(is_sorted(paper_list, b@));
    }
    (a, b)
}

/// How many of the first `n` files are profiles.
pub open spec fn count_profiles(found: Seq<FoundProfile>, n: int) -> nat
    decreases n,
{
    if n <= 0 {
        0
    } else {
        count_profiles(found, n - 1) + if stem_of(found[n - 1].file@) is Some {
            1nat
        } else {
            0nat
        }
    }
}

/// The films and the papers together are as many as the profiles.
pub proof fn lemma_profiles_parted(found: Seq<FoundProfile>, n: int)
    ensures
        entries_among(found, false, n).len() + entries_among(found, true, n).len()
            == count_profiles(found, n),
    decreases n,
{
    if n > 0 {
        lemma_profiles_parted(found, n - 1);
    }
}

/// Every profile is offered where it belongs: among the papers if it is one,
/// and among the films otherwise.
pub proof fn lemma_profile_offered(found: Seq<FoundProfile>, i: int, n: int)
    requires
        0 <= i < n <= found.len(),
        stem_of(found[i].file@) is Some,
    ensures
        entries_among(found, prints(found[i].info), n).contains(
            (
                stem_of(found[i].file@)->0,
                display_text(stem_of(found[i].file@)->0, found[i].info),
            ),
        ),
    decreases n,
{
    let paper = prints(found[i].info);
    let stock = stem_of(found[i].file@)->0;
    let e = (stock, display_text(stock, found[i].info));
    let before = entries_among(found, paper, n - 1);
    let now = entries_among(found, paper, n);
    if i == n - 1 {
        assert(now == before.push(e));
        assert(now[before.len() as int] == e);
    } else {
        lemma_profile_offered(found, i, n - 1);
        let k = choose|k: int| 0 <= k < before.len() && before[k] == e;
        assert(now[k] == e);
    }
}

/// A stock is among the entries.
pub open spec fn offers(entries: Seq<ProfileEntry>, stock: Seq<char>) -> bool {
    exists|i: int| 0 <= i < entries.len() && (#[trigger] entries[i]).stock@ == stock
}

/// The first entry of a stock.
pub open spec fn is_first_of(entries: Seq<ProfileEntry>, stock: Seq<char>, i: int) -> bool {
    &&& 0 <= i < entries.len()
    &&& entries[i].stock@ == stock
    &&& forall|k: int| 0 <= k < i ==> (#[trigger] entries[k]).stock@ != stock
}

/// The first entry of a stock.
pub fn find_stock(entries: &Vec<ProfileEntry>, stock: &str) -> (r: Option<usize>)
    ensures
        match r {
            Some(i) => is_first_of(entries@, stock@, i as int),
            None => !offers(entries@, stock@),
        },
{
    let mut i: usize = 0;
    while i < entries.len()
        invariant
            i <= entries@.len(),
            forall|k: int| 0 <= k < i ==> (#[trigger] entries@[k]).stock@ != stock@,
        decreases entries.len() - i,
    {
        if same(entries[i].stock.as_str(), stock) {
            return Some(i);
        }
        i += 1;
    }
    None
}

/// The stock that is chosen at the start.
pub open spec fn default_stock(entries: Seq<ProfileEntry>, preferred: Seq<char>) -> Seq<char> {
    if offers(entries, preferred) || entries.len() == 0 {
        preferred
    } else {
        entries[0].stock@
    }
}

/// The stock that is chosen at the start: the preferred one where it is
/// offered, and the first otherwise.
pub fn pick_default_stock(entries: &Vec<ProfileEntry>, preferred: &str) -> (r: String)
    ensures
        r@ == default_stock(entries@, preferred@),
{
    if find_stock(entries, preferred).is_some() || entries.len() == 0 {
        preferred.to_owned()
    } else {
        entries[0].stock.clone()
    }
}

/// What is shown for a chosen stock: its name, or itself where it is not
/// offered.
pub fn shown_stock(entries: &Vec<ProfileEntry>, stock: &str) -> (r: String)
    ensures
        if offers(entries@, stock@) {
            exists|i: int| #[trigger]
                is_first_of(entries@, stock@, i) && r@ == entries@[i].display@
        } else {
            r@ == stock@
        },
{
    match find_stock(entries, stock) {
        Some(i) => {
            proof {
                assert(is_first_of(entries@, stock@, i as int));
                assert(entries@[i as int].stock@ == stock@);
            }
            entries[i].display.clone()
        },
        None => stock.to_owned(),
    }
}

/// The paper for a film at the start: the one that the film was made for
/// where it is offered, and the default otherwise.
pub open spec fn default_paper(papers: Seq<ProfileEntry>, target: Option<Seq<char>>) -> Seq<char> {
    match target {
        Some(t) => if offers(papers, t) {
            t
        } else {
            default_stock(papers, "fujifilm_crystal_archive_typeii"@)
        },
        None => default_stock(papers, "fujifilm_crystal_archive_typeii"@),
    }
}

/// The characters of a text, where there is one.
pub open spec fn text_in(s: Option<&str>) -> Option<Seq<char>> {
    match s {
        Some(t) => Some(t@),
        None => None,
    }
}

/// The film that is chosen at the start.
pub fn pick_film(films: &Vec<ProfileEntry>) -> (r: String)
    ensures
        r@ == default_stock(films@, "kodak_gold_200"@),
{
    pick_default_stock(films, "kodak_gold_200")
}

/// The paper that is chosen at the start, by what the film was made for.
pub fn pick_paper(papers: &Vec<ProfileEntry>, target: Option<&str>) -> (r: String)
    ensures
        r@ == default_paper(papers@, text_in(target)),
{
    if let Some(t) = target {
        if let Some(i) = find_stock(papers, t) {
            assert(papers@[i as int].stock@ == t@);
            return t.to_owned();
        }
    }
    pick_default_stock(papers, "fujifilm_crystal_archive_typeii")
}

/// The directory of the data: one at hand, or one beside the program's
/// sources.
pub fn data_dir(at_hand: bool, beside: Option<&str>) -> (r: String)
    ensures
        r@ == match beside {
            Some(p) => if at_hand {
                "data"@
            } else {
                p@
            },
            None => "data"@,
        },
{
    match beside {
        Some(p) => if at_hand {
            "data".to_owned()
        } else {
            p.to_owned()
        },
        None => "data".to_owned(),
    }
}

} // verus!
