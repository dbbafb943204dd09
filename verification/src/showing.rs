//! What of a library is found, and what is shown of what was found.
use crate::digits::decimal;
use crate::disk::FsEntry;
use crate::double::number_rank;
use crate::error::ErrorModel;
use crate::index::{add_sources, every_page_has_a_source, fits, sources_of};
use crate::mangas::mangas_at;
use crate::model::{ChapterModel, MangaModel, PageModel, SourceModel};
use crate::natural::natural_key;
use crate::order::key_lt;
use crate::outside::{lowercase, parsed_url, url_path};
use crate::path::opt_view;
use crate::provider::{
    chapter_found, chapter_with_id, found_mangas, image_at, is_found, latest_chapters, loaded,
    manga_with_id, ordered_chapters, search_finds_what_matches, search_result, shown, term_view,
    title_keys, ImageModel,
};
use crate::reading::sorted_items_are_in_order;
use crate::responses::{
    every_chapter_is_listed, listed_volume, listed_volumes, ordered_volumes, page_urls,
    shown_number, shows_chapter, shows_chapter_reader, shows_chapter_to_read,
    shows_latest_chapter, shows_list, shows_manga, shows_popular_manga, shows_recent_manga,
    shows_search_manga, shows_volume, volume_chapters, volume_key, volume_keys, Chapter,
    ChapterOrderBy, ChapterToRead, LatestChapter, ListOfChapters, Manga, MangaStatus,
    Pagination, PopularManga, RecentlyAddedManga, SearchManga,
};
use crate::text::{occurs_at, occurs_in, text_views};
use vstd::prelude::*;

verus! {

/// A search finds every manga whose title in lower case is the term with some
/// text before it and some text behind it.
pub proof fn titles_around_the_term_are_found(
    mangas: Seq<MangaModel>,
    term: Seq<char>,
    i: int,
    a: Seq<char>,
    b: Seq<char>,
)
    requires
        0 <= i < mangas.len(),
        lowercase(mangas[i].title) == a + term + b,
    ensures
        search_result(mangas, Some(term)).contains(mangas[i]),
{
    let title = lowercase(mangas[i].title);
    assert(title.subrange(a.len() as int, (a.len() + term.len()) as int) =~= term);
    assert(occurs_at(title, term, a.len() as int));
    assert(is_found(mangas[i], Some(term)));
    let found = found_mangas(mangas, Some(term));
    let pred = |m: MangaModel| is_found(m, Some(term));
    mangas.lemma_filter_contains(pred, i);
    let key = |m: MangaModel| natural_key(m.title);
    sorted_items_are_in_order(found, title_keys(found), key);
    assert(found.contains(mangas[i]));
}

/// A search finds only mangas of the library whose titles in lower case are the
/// term with some text before it and some behind it, in natural order of the
/// titles.
pub proof fn found_titles_hold_the_term(mangas: Seq<MangaModel>, term: Seq<char>, i: int)
    requires
        0 <= i < search_result(mangas, Some(term)).len(),
    ensures
        mangas.contains(search_result(mangas, Some(term))[i]),
        exists|a: Seq<char>, b: Seq<char>|
            lowercase(search_result(mangas, Some(term))[i].title) == #[trigger] (a + term + b),
        forall|j: int|
            i < j < search_result(mangas, Some(term)).len() ==> !key_lt(
                natural_key((#[trigger] search_result(mangas, Some(term))[j]).title),
                natural_key(search_result(mangas, Some(term))[i].title),
            ),
{
    let found = found_mangas(mangas, Some(term));
    let pred = |m: MangaModel| is_found(m, Some(term));
    let key = |m: MangaModel| natural_key(m.title);
    sorted_items_are_in_order(found, title_keys(found), key);
    let result = search_result(mangas, Some(term));
    assert(result.contains(result[i]));
    assert(found.contains(result[i]));
    mangas.lemma_filter_contains_rev(pred, result[i]);
    let k = choose|k: int| 0 <= k < found.len() && found[k] == result[i];
    mangas.lemma_filter_pred(pred, k);
    let title = lowercase(result[i].title);
    assert(occurs_in(title, term));
    let at = choose|at: int| #[trigger] occurs_at(title, term, at);
    let a = title.take(at);
    let b = title.skip(at + term.len());
    assert(title =~= a + term + b);
    assert forall|j: int| i < j < result.len() implies !key_lt(
        natural_key((#[trigger] result[j]).title),
        natural_key(result[i].title),
    ) by {
        assert(!key_lt(key(result[j]), key(result[i])));
    }
}

/// A search without a term finds the whole library, in natural order of the
/// titles.
pub proof fn search_without_a_term_finds_all(mangas: Seq<MangaModel>, i: int, j: int)
    requires
        0 <= i < mangas.len(),
        0 <= j < search_result(mangas, None).len(),
    ensures
        search_result(mangas, None).contains(mangas[i]),
        mangas.contains(search_result(mangas, None)[j]),
        search_result(mangas, None).len() == mangas.len(),
        j + 1 < mangas.len() ==> !key_lt(
            natural_key(search_result(mangas, None)[j + 1].title),
            natural_key(search_result(mangas, None)[j].title),
        ),
{
    let found = found_mangas(mangas, None);
    let pred = |m: MangaModel| is_found(m, None);
    let key = |m: MangaModel| natural_key(m.title);
    search_finds_what_matches(mangas, None);
    assert(found == mangas);
    sorted_items_are_in_order(found, title_keys(found), key);
    let result = search_result(mangas, None);
    assert(mangas.contains(mangas[i]));
    assert(result.contains(result[j]));
    if j + 1 < mangas.len() {
        assert(!key_lt(key(result[j + 1]), key(result[j])));
    }
}

/// The shown part of a list is that from the first place to before the last;
/// where the list has no such part, nothing is shown.
pub proof fn a_window_of_the_list_is_shown<T>(items: Seq<T>, pagination: Pagination)
    ensures
        pagination.from <= pagination.to && pagination.to <= items.len() ==> {
            &&& shown(items, pagination).len() == pagination.to - pagination.from
            &&& forall|i: int|
                0 <= i < pagination.to - pagination.from ==> #[trigger] shown(items, pagination)[i]
                    == items[pagination.from + i]
        },
        pagination.from > pagination.to || pagination.to > items.len() ==> shown(items, pagination).len() == 0,
{
}

/// Chapters are given as they stand, or from the last to the first.
pub proof fn chapters_are_given_either_way(chapters: Seq<ChapterModel>, i: int)
    requires
        0 <= i < chapters.len(),
    ensures
        ordered_chapters(chapters, ChapterOrderBy::Ascending).len() == chapters.len(),
        ordered_chapters(chapters, ChapterOrderBy::Ascending)[i] == chapters[i],
        ordered_chapters(chapters, ChapterOrderBy::Descending).len() == chapters.len(),
        ordered_chapters(chapters, ChapterOrderBy::Descending)[i] == chapters[chapters.len() - 1 - i],
{
}

/// The latest chapters are the last five, or all where there are fewer, from
/// the last back.
pub proof fn latest_chapters_are_the_last(chapters: Seq<ChapterModel>)
    ensures
        chapters.len() >= 5 ==> latest_chapters(chapters).len() == 5,
        chapters.len() < 5 ==> latest_chapters(chapters).len() == chapters.len(),
        forall|i: int|
            0 <= i < chapters.len() && i < 5 ==> #[trigger] latest_chapters(chapters)[i] == chapters[chapters.len()
                - 1 - i],
{
}

/// A manga is found by its identifier: the last one that has it, and none only
/// where no manga has it.
pub proof fn mangas_are_found_by_identifier(mangas: Seq<MangaModel>, id: Seq<char>)
    ensures
        match manga_with_id(mangas, id) {
            Some(m) => exists|i: int|
                {
                    &&& 0 <= i < mangas.len()
                    &&& #[trigger] mangas[i] == m
                    &&& m.id == id
                    &&& forall|j: int| i < j < mangas.len() ==> (#[trigger] mangas[j]).id != id
                },
            None => forall|i: int| 0 <= i < mangas.len() ==> (#[trigger] mangas[i]).id != id,
        },
    decreases mangas.len(),
{
    if mangas.len() > 0 {
        let rest = mangas.drop_last();
        if mangas.last().id == id {
            assert(mangas[mangas.len() - 1] == mangas.last());
        } else {
            mangas_are_found_by_identifier(rest, id);
            match manga_with_id(rest, id) {
                Some(m) => {
                    let i = choose|i: int|
                        {
                            &&& 0 <= i < rest.len()
                            &&& #[trigger] rest[i] == m
                            &&& m.id == id
                            &&& forall|j: int| i < j < rest.len() ==> (#[trigger] rest[j]).id != id
                        };
                    assert(mangas[i] == m);
                    assert forall|j: int| i < j < mangas.len() implies (#[trigger] mangas[j]).id != id by {
                        if j < rest.len() {
                            assert(rest[j] == mangas[j]);
                        }
                    }
                },
                None => {
                    assert forall|i: int| 0 <= i < mangas.len() implies (#[trigger] mangas[i]).id != id by {
                        if i < rest.len() {
                            assert(rest[i] == mangas[i]);
                        }
                    }
                },
            }
        }
    }
}

/// A chapter is found by its identifier: the first one of the manga that has
/// it, and none only where no chapter has it.
pub proof fn chapters_are_found_by_identifier(chapters: Seq<ChapterModel>, id: Seq<char>)
    ensures
        match chapter_with_id(chapters, id) {
            Some(c) => exists|i: int|
                {
                    &&& 0 <= i < chapters.len()
                    &&& #[trigger] chapters[i] == c
                    &&& c.id == id
                    &&& forall|j: int| 0 <= j < i ==> (#[trigger] chapters[j]).id != id
                },
            None => forall|i: int| 0 <= i < chapters.len() ==> (#[trigger] chapters[i]).id != id,
        },
    decreases chapters.len(),
{
    if chapters.len() > 0 {
        let rest = chapters.skip(1);
        if chapters[0].id == id {
        } else {
            chapters_are_found_by_identifier(rest, id);
            match chapter_with_id(rest, id) {
                Some(c) => {
                    let i = choose|i: int|
                        {
                            &&& 0 <= i < rest.len()
                            &&& #[trigger] rest[i] == c
                            &&& c.id == id
                            &&& forall|j: int| 0 <= j < i ==> (#[trigger] rest[j]).id != id
                        };
                    assert(chapters[i + 1] == c);
                    assert forall|j: int| 0 <= j < i + 1 implies (#[trigger] chapters[j]).id != id by {
                        if j > 0 {
                            assert(rest[j - 1] == chapters[j]);
                        }
                    }
                },
                None => {
                    assert forall|i: int| 0 <= i < chapters.len() implies (#[trigger] chapters[i]).id != id by {
                        if i > 0 {
                            assert(rest[i - 1] == chapters[i]);
                        }
                    }
                },
            }
        }
    }
}

/// A chapter that is opened has as many page URLs as it has pages, and each is
/// the URL of the page in its place.
pub proof fn opened_chapters_show_their_pages(r: ChapterToRead, c: ChapterModel, bookmark: Option<u32>)
    requires
        shows_chapter_to_read(r, c, bookmark),
    ensures
        r.pages_url@.len() == c.pages.len(),
        forall|i: int| 0 <= i < c.pages.len() ==> (#[trigger] r.pages_url@[i])@ == c.pages[i].url,
        r.id@ == c.id,
        r.title@ == c.title,
        r.number == shown_number(c.number),
        opt_view(r.volume_number) == c.volume,
        r.num_page_bookmarked == bookmark,
{
    assert(text_views(r.pages_url@).len() == page_urls(c.pages).len());
    assert forall|i: int| 0 <= i < c.pages.len() implies (#[trigger] r.pages_url@[i])@ == c.pages[i].url by {
        assert(text_views(r.pages_url@)[i] == page_urls(c.pages)[i]);
    }
}

/// A manga is shown under its own identifier, title and cover, and described by
/// the path it was found at.
pub proof fn mangas_are_shown_as_they_are(m: MangaModel, r: Manga, n: RecentlyAddedManga)
    requires
        shows_manga(r, m),
        shows_recent_manga(n, m),
    ensures
        r.id@ == m.id && r.id_safe_for_download@ == m.id && n.id@ == m.id,
        r.title@ == m.title && n.title@ == m.title,
        r.cover_img_url@ == m.cover_img_url && n.cover_img_url@ == m.cover_img_url,
        r.description@ == "Local manga from "@ + m.source_path.text,
        n.description@ == "Local manga from "@ + m.source_path.text,
        r.rating@ == "local"@,
        r.status == MangaStatus::Completed,
{
}

/// A manga in a list is shown under its own identifier, title and cover, and
/// described by how many chapters it has.
pub proof fn listed_mangas_tell_their_chapters(m: MangaModel, s: SearchManga, p: PopularManga)
    requires
        shows_search_manga(s, m),
        shows_popular_manga(p, m),
    ensures
        s.id@ == m.id && p.id@ == m.id,
        s.title@ == m.title && p.title@ == m.title,
        s.cover_img_url@ == m.cover_img_url && p.cover_img_url@ == m.cover_img_url,
        opt_view(s.description) == Some(decimal(m.chapters.len()) + " local chapters"@),
        p.description@ == decimal(m.chapters.len()) + " local chapters"@,
        s.status == Some(MangaStatus::Completed),
        p.status == Some(MangaStatus::Completed),
{
}

/// A chapter is shown under its own identifier, title, number and volume, and
/// with the manga that it was asked for.
pub proof fn chapters_are_shown_as_they_are(
    c: ChapterModel,
    manga_id: Seq<char>,
    r: Chapter,
    l: LatestChapter,
)
    requires
        shows_chapter(r, manga_id, c),
        shows_latest_chapter(l, manga_id, c),
    ensures
        r.id@ == c.id && r.id_safe_for_download@ == c.id && l.id@ == c.id,
        r.manga_id@ == manga_id && l.manga_id@ == manga_id,
        r.title@ == c.title && l.title@ == c.title,
        r.chapter_number@ == c.number && l.chapter_number@ == c.number,
        opt_view(r.volume_number) == c.volume && opt_view(l.volume_number) == c.volume,
        opt_view(r.scanlator) == Some("Local"@),
        r.publication_date is None && l.publication_date is None,
{
}

/// The term of a search is taken as it is given.
pub proof fn terms_are_taken_as_given(term: Option<&str>)
    ensures
        term matches Some(t) ==> term_view(term) == Some(t@),
        term is None ==> term_view(term) is None,
{
}

proof fn lemma_chapters_of_volume(chapters: Seq<ChapterModel>, volume: Seq<char>, a: int, b: int)
    requires
        0 <= a < b < volume_chapters(chapters, volume).len(),
    ensures
        exists|i: int, j: int|
            0 <= i < j < chapters.len() && #[trigger] chapters[i] == volume_chapters(chapters, volume)[a]
                && #[trigger] chapters[j] == volume_chapters(chapters, volume)[b],
    decreases chapters.len(),
{
    let all = volume_chapters(chapters, volume);
    let front = chapters.drop_last();
    let rest = volume_chapters(front, volume);
    if listed_volume(chapters.last()) == volume && b == all.len() - 1 {
        assert(all[a] == rest[a]);
        lemma_chapter_of_volume(front, volume, a);
        let i = choose|i: int| 0 <= i < front.len() && #[trigger] front[i] == rest[a];
        assert(chapters[i] == all[a] && chapters[chapters.len() - 1] == all[b]);
    } else {
        assert(all[a] == rest[a] && all[b] == rest[b]);
        lemma_chapters_of_volume(front, volume, a, b);
        let (i, j) = choose|i: int, j: int|
            0 <= i < j < front.len() && #[trigger] front[i] == rest[a] && #[trigger] front[j] == rest[b];
        assert(chapters[i] == all[a] && chapters[j] == all[b]);
    }
}

proof fn lemma_chapter_of_volume(chapters: Seq<ChapterModel>, volume: Seq<char>, a: int)
    requires
        0 <= a < volume_chapters(chapters, volume).len(),
    ensures
        exists|i: int| 0 <= i < chapters.len() && #[trigger] chapters[i] == volume_chapters(chapters, volume)[a],
        listed_volume(volume_chapters(chapters, volume)[a]) == volume,
    decreases chapters.len(),
{
    let all = volume_chapters(chapters, volume);
    let front = chapters.drop_last();
    let rest = volume_chapters(front, volume);
    if listed_volume(chapters.last()) == volume && a == all.len() - 1 {
        assert(chapters[chapters.len() - 1] == all[a]);
    } else {
        assert(all[a] == rest[a]);
        lemma_chapter_of_volume(front, volume, a);
        let i = choose|i: int| 0 <= i < front.len() && #[trigger] front[i] == rest[a];
        assert(chapters[i] == all[a]);
    }
}

/// Every chapter of a manga stands in its list of chapters, under its volume, or
/// under `none` where it has no volume.
pub proof fn lists_hold_every_chapter(r: ListOfChapters, m: MangaModel, i: int)
    requires
        shows_list(r, m),
        0 <= i < m.chapters.len(),
    ensures
        exists|v: int, k: int|
            {
                let c = m.chapters[i];
                &&& 0 <= v < r.volumes@.len()
                &&& 0 <= k < r.volumes@[v].chapters@.len()
                &&& r.volumes@[v].volume@ == (match c.volume {
                    Some(volume) => volume,
                    None => "none"@,
                })
                &&& (#[trigger] r.volumes@[v].chapters@[k]).id@ == c.id
                &&& r.volumes@[v].chapters@[k].number@ == c.number
                &&& r.volumes@[v].chapters@[k].volume@ == r.volumes@[v].volume@
            },
{
    every_chapter_is_listed(m.chapters, i);
    let c = m.chapters[i];
    let volumes = ordered_volumes(m.chapters);
    let v = choose|v: int| 0 <= v < volumes.len() && volumes[v] == listed_volume(c);
    let under = volume_chapters(m.chapters, listed_volume(c));
    let k = choose|k: int| 0 <= k < under.len() && under[k] == c;
    assert(shows_volume(r.volumes@[v], volumes[v], under));
    assert(shows_chapter_reader(r.volumes@[v].chapters@[k], under[k]));
}

/// What stands in a list of chapters is a chapter of the manga. Volumes stand by
/// their numbers, those of one number by their text, each once, and the chapters
/// of a volume as in the manga.
pub proof fn lists_are_in_order(r: ListOfChapters, m: MangaModel, v: int, k: int)
    requires
        shows_list(r, m),
        0 <= v < r.volumes@.len(),
        0 <= k < r.volumes@[v].chapters@.len(),
    ensures
        exists|i: int|
            0 <= i < m.chapters.len() && (#[trigger] m.chapters[i]).id == r.volumes@[v].chapters@[k].id@
                && m.chapters[i].number == r.volumes@[v].chapters@[k].number@,
        forall|w: int|
            v < w < r.volumes@.len() ==> number_rank(r.volumes@[v].volume@) <= number_rank(
                (#[trigger] r.volumes@[w]).volume@,
            ) && r.volumes@[v].volume@ != r.volumes@[w].volume@,
        forall|w: int|
            v < w < r.volumes@.len() && number_rank(r.volumes@[v].volume@) == number_rank(
                (#[trigger] r.volumes@[w]).volume@,
            ) ==> !key_lt(
                r.volumes@[w].volume@.map_values(|c: char| c as int),
                r.volumes@[v].volume@.map_values(|c: char| c as int),
            ),
        forall|n: int|
            k < n < r.volumes@[v].chapters@.len() ==> exists|i: int, j: int|
                0 <= i < j < m.chapters.len() && (#[trigger] m.chapters[i]).id == r.volumes@[v].chapters@[k].id@
                    && (#[trigger] m.chapters[j]).id == (#[trigger] r.volumes@[v].chapters@[n]).id@,
{
    let volumes = ordered_volumes(m.chapters);
    let names = listed_volumes(m.chapters);
    let under = volume_chapters(m.chapters, volumes[v]);
    assert(shows_volume(r.volumes@[v], volumes[v], under));
    assert(shows_chapter_reader(r.volumes@[v].chapters@[k], under[k]));
    lemma_chapter_of_volume(m.chapters, volumes[v], k);
    let i = choose|i: int| 0 <= i < m.chapters.len() && #[trigger] m.chapters[i] == under[k];
    every_chapter_is_listed(m.chapters, i);
    let key = |n: Seq<char>| volume_key(n);
    sorted_items_are_in_order(names, volume_keys(names), key);
    assert forall|w: int| v < w < r.volumes@.len() implies number_rank(r.volumes@[v].volume@) <= number_rank(
        (#[trigger] r.volumes@[w]).volume@,
    ) && r.volumes@[v].volume@ != r.volumes@[w].volume@ by {
        assert(shows_volume(r.volumes@[w], volumes[w], volume_chapters(m.chapters, volumes[w])));
        assert(!key_lt(key(volumes[w]), key(volumes[v])));
        assert(volume_key(volumes[w])[0] == number_rank(volumes[w]));
        assert(volume_key(volumes[v])[0] == number_rank(volumes[v]));
    }
    assert forall|w: int|
        v < w < r.volumes@.len() && number_rank(r.volumes@[v].volume@) == number_rank(
            (#[trigger] r.volumes@[w]).volume@,
        ) implies !key_lt(
        r.volumes@[w].volume@.map_values(|c: char| c as int),
        r.volumes@[v].volume@.map_values(|c: char| c as int),
    ) by {
        assert(shows_volume(r.volumes@[w], volumes[w], volume_chapters(m.chapters, volumes[w])));
        assert(!key_lt(key(volumes[w]), key(volumes[v])));
        assert(volume_key(volumes[w]).skip(1) =~= volumes[w].map_values(|c: char| c as int));
        assert(volume_key(volumes[v]).skip(1) =~= volumes[v].map_values(|c: char| c as int));
        assert(volume_key(volumes[w])[0] == number_rank(volumes[w]));
        assert(volume_key(volumes[v])[0] == number_rank(volumes[v]));
    }
    assert forall|n: int| k < n < r.volumes@[v].chapters@.len() implies exists|i: int, j: int|
        0 <= i < j < m.chapters.len() && (#[trigger] m.chapters[i]).id == r.volumes@[v].chapters@[k].id@
            && (#[trigger] m.chapters[j]).id == (#[trigger] r.volumes@[v].chapters@[n]).id@ by {
        lemma_chapters_of_volume(m.chapters, volumes[v], k, n);
        assert(shows_chapter_reader(r.volumes@[v].chapters@[n], under[n]));
        let (i, j) = choose|i: int, j: int|
            0 <= i < j < m.chapters.len() && #[trigger] m.chapters[i] == under[k] && #[trigger] m.chapters[j]
                == under[n];
        assert(m.chapters[i].id == under[k].id && m.chapters[j].id == under[n].id);
    }
}

/// A library is loaded if mangas are found at its path; where none are found, it
/// is refused with its path, and where it cannot be read, with the reason.
pub proof fn libraries_without_mangas_are_refused(root: FsEntry)
    ensures
        mangas_at(root) matches Err(x) ==> loaded(root) == Err::<Seq<MangaModel>, ErrorModel>(x),
        mangas_at(root) matches Ok(mangas) ==> {
            &&& mangas.len() == 0 ==> loaded(root) == Err::<Seq<MangaModel>, ErrorModel>(
                ErrorModel::NoManga(root.path@.text),
            )
            &&& mangas.len() > 0 && fits(mangas) ==> loaded(root) == Ok::<Seq<MangaModel>, ErrorModel>(mangas)
            &&& mangas.len() > 0 && !fits(mangas) ==> loaded(root) == Err::<Seq<MangaModel>, ErrorModel>(
                ErrorModel::TooLarge(root.path@.text),
            )
        },
{
}

/// A chapter is looked for in the manga that it is asked for; what is not there
/// is named, the manga first.
pub proof fn missing_mangas_and_chapters_are_named(
    mangas: Seq<MangaModel>,
    chapter_id: Seq<char>,
    manga_id: Seq<char>,
)
    ensures
        (forall|i: int| 0 <= i < mangas.len() ==> (#[trigger] mangas[i]).id != manga_id) ==> chapter_found(
            mangas,
            chapter_id,
            manga_id,
        ) == Err::<(MangaModel, ChapterModel), ErrorModel>(ErrorModel::MangaNotFound(manga_id)),
        manga_with_id(mangas, manga_id) matches Some(m) ==> {
            &&& (forall|i: int| 0 <= i < m.chapters.len() ==> (#[trigger] m.chapters[i]).id != chapter_id)
                ==> chapter_found(mangas, chapter_id, manga_id) == Err::<(MangaModel, ChapterModel), ErrorModel>(
                ErrorModel::ChapterNotFound(chapter_id),
            )
            &&& chapter_found(mangas, chapter_id, manga_id) matches Ok((n, c)) ==> n == m && m.chapters.contains(c)
                && c.id == chapter_id && m.id == manga_id
        },
{
    mangas_are_found_by_identifier(mangas, manga_id);
    if let Some(m) = manga_with_id(mangas, manga_id) {
        chapters_are_found_by_identifier(m.chapters, chapter_id);
    }
}

/// The image with the URL of a page is where the page is. Any other URL leads to
/// a file, or is refused: with the parser's reason where it is no URL, and with
/// how it is written where it leads to no file.
pub proof fn images_are_found_by_url(sources: Map<Seq<char>, SourceModel>, url: Seq<char>)
    ensures
        sources.contains_key(url) ==> image_at(sources, url) == Ok::<ImageModel, ErrorModel>(
            ImageModel::Page(sources[url]),
        ),
        !sources.contains_key(url) ==> {
            &&& parsed_url(url) matches Err(x) ==> image_at(sources, url) == Err::<ImageModel, ErrorModel>(
                ErrorModel::InvalidUrl(url, x),
            )
            &&& parsed_url(url) matches Ok(written) ==> {
                &&& url_path(url) matches Some(path) ==> image_at(sources, url) == Ok::<ImageModel, ErrorModel>(
                    ImageModel::File(path),
                )
                &&& url_path(url) is None ==> image_at(sources, url) == Err::<ImageModel, ErrorModel>(
                    ErrorModel::NotFileUrl(written),
                )
            }
        },
{
}

proof fn lemma_source_of_page(sources: Map<Seq<char>, SourceModel>, pages: Seq<PageModel>, j: int)
    requires
        0 <= j < pages.len(),
        forall|k: int| j < k < pages.len() ==> (#[trigger] pages[k]).url != pages[j].url,
    ensures
        add_sources(sources, pages).contains_key(pages[j].url),
        add_sources(sources, pages)[pages[j].url] == pages[j].source,
    decreases pages.len(),
{
    let front = pages.drop_last();
    if j < pages.len() - 1 {
        assert forall|k: int| j < k < front.len() implies (#[trigger] front[k]).url != front[j].url by {
            assert(front[k] == pages[k]);
        }
        lemma_source_of_page(sources, front, j);
        assert(pages[pages.len() - 1].url != pages[j].url);
    }
}

proof fn lemma_other_sources_stay(sources: Map<Seq<char>, SourceModel>, pages: Seq<PageModel>, url: Seq<char>)
    requires
        forall|k: int| 0 <= k < pages.len() ==> (#[trigger] pages[k]).url != url,
    ensures
        add_sources(sources, pages).contains_key(url) == sources.contains_key(url),
        sources.contains_key(url) ==> add_sources(sources, pages)[url] == sources[url],
    decreases pages.len(),
{
    if pages.len() > 0 {
        let front = pages.drop_last();
        assert forall|k: int| 0 <= k < front.len() implies (#[trigger] front[k]).url != url by {
            assert(front[k] == pages[k]);
        }
        lemma_other_sources_stay(sources, front, url);
        assert(pages[pages.len() - 1].url != url);
    }
}

/// The image of a page is read from where the last page with its URL is.
pub proof fn the_last_page_with_a_url_is_read(chapters: Seq<ChapterModel>, i: int, j: int)
    requires
        0 <= i < chapters.len(),
        0 <= j < chapters[i].pages.len(),
        forall|k: int|
            j < k < chapters[i].pages.len() ==> (#[trigger] chapters[i].pages[k]).url != chapters[i].pages[j].url,
        forall|n: int, k: int|
            i < n < chapters.len() && 0 <= k < chapters[n].pages.len() ==> (#[trigger] chapters[n].pages[k]).url
                != chapters[i].pages[j].url,
    ensures
        image_at(sources_of(chapters), chapters[i].pages[j].url) == Ok::<ImageModel, ErrorModel>(
            ImageModel::Page(chapters[i].pages[j].source),
        ),
    decreases chapters.len(),
{
    let front = chapters.drop_last();
    let last = chapters.last();
    let url = chapters[i].pages[j].url;
    if i < chapters.len() - 1 {
        assert(front[i] == chapters[i]);
        assert forall|n: int, k: int| i < n < front.len() && 0 <= k < front[n].pages.len() implies (
        #[trigger] front[n].pages[k]).url != url by {
            assert(chapters[n].pages[k].url != url);
        }
        the_last_page_with_a_url_is_read(front, i, j);
        assert forall|k: int| 0 <= k < last.pages.len() implies (#[trigger] last.pages[k]).url != url by {
            assert(chapters[chapters.len() - 1].pages[k].url != url);
        }
        lemma_page_is_known(front, i, j);
        lemma_other_sources_stay(sources_of(front), last.pages, url);
    } else {
        lemma_source_of_page(sources_of(front), last.pages, j);
    }
}

proof fn lemma_page_is_known(chapters: Seq<ChapterModel>, i: int, j: int)
    requires
        0 <= i < chapters.len(),
        0 <= j < chapters[i].pages.len(),
    ensures
        sources_of(chapters).contains_key(chapters[i].pages[j].url),
{
    every_page_has_a_source(chapters, i, j);
}

} // verus!
