//! The order in which the chapters of a manga and the pages of a chapter stand,
//! and which files are their pages.
use crate::chapters::{
    archive_chapter, archive_images, chapter_of, file_url_of, image_names, image_page,
    image_pages, natural_keys,
};
use crate::digits::decimal;
use crate::disk::{
    depth, is_visible, listing, max_depth, name_keys, path_keys, visible_entries,
    ArchiveListing, ArchiveMember, DirListing, FsEntry, FsKind,
};
use crate::double::number_rank;
use crate::error::ErrorModel;
use crate::formats::{archive_format, is_archive, is_image, lower_extension, LocalChapterFormat};
use crate::layouts::{found_mangas_are_complete, is_complete};
use crate::mangas::{first_cover, mangas_at, scanned};
use crate::model::{chapter_key, ChapterModel, MangaModel, SourceModel};
use crate::natural::natural_key;
use crate::order::{
    key_le, key_lt, lemma_key_lt_asymmetric, lemma_key_lt_irreflexive, lemma_stable_order,
    sorted_by, sorting_keeps_items, stable_order,
};
use crate::path::{path_of, PathModel};
use crate::scan::{
    archives_shallow, chapter_dirs_in, image_files, images_below, images_below_dirs,
    images_listed, images_recursive, images_shallow, is_dir, is_file, lemma_listing_depth,
    volume_dirs_in,
};
use crate::text::{lower, lower_char};
use vstd::prelude::*;

verus! {

proof fn lemma_key_of_three(a: int, b: int, s: Seq<int>, c: int, d: int, t: Seq<int>)
    requires
        key_le(seq![a, b] + s, seq![c, d] + t),
    ensures
        a <= c,
        a == c ==> b <= d,
        a == c && b == d ==> !key_lt(t, s),
{
    let x = seq![a, b] + s;
    let y = seq![c, d] + t;
    assert(x.skip(1).skip(1) == s);
    assert(y.skip(1).skip(1) == t);
    assert(x.skip(1)[0] == b && y.skip(1)[0] == d);
    assert(x[0] == a && y[0] == c);
    if x == y {
        lemma_key_lt_irreflexive(s);
    } else if a == c {
        assert(key_lt(x.skip(1), y.skip(1)));
        if b == d {
            assert(key_lt(s, t));
            lemma_key_lt_asymmetric(s, t);
        }
    }
}

/// The chapters of a manga stand by volume, a chapter without one as in volume
/// zero; those of one volume stand by number, and those of one number by title
/// in natural order.
pub proof fn chapters_are_in_reading_order(e: FsEntry, m: int, i: int, j: int)
    requires
        mangas_at(e) is Ok,
        0 <= m < mangas_at(e)->Ok_0.len(),
        0 <= i < j < mangas_at(e)->Ok_0[m].chapters.len(),
    ensures
        ({
            let c = mangas_at(e)->Ok_0[m].chapters[i];
            let d = mangas_at(e)->Ok_0[m].chapters[j];
            let volume_of_c = match c.volume {
                Some(v) => number_rank(v),
                None => number_rank("0"@),
            };
            let volume_of_d = match d.volume {
                Some(v) => number_rank(v),
                None => number_rank("0"@),
            };
            &&& volume_of_c <= volume_of_d
            &&& volume_of_c == volume_of_d ==> number_rank(c.number) <= number_rank(d.number)
            &&& volume_of_c == volume_of_d && number_rank(c.number) == number_rank(d.number)
                ==> !key_lt(natural_key(d.title), natural_key(c.title))
        }),
{
    found_mangas_are_complete(e);
    let mangas = mangas_at(e)->Ok_0;
    assert(is_complete(mangas[m]));
    let c = mangas[m].chapters[i];
    let d = mangas[m].chapters[j];
    assert(key_le(chapter_key(c), chapter_key(d)));
    let vc = match c.volume {
        Some(v) => v,
        None => "0"@,
    };
    let vd = match d.volume {
        Some(v) => v,
        None => "0"@,
    };
    lemma_key_of_three(
        number_rank(vc),
        number_rank(c.number),
        natural_key(c.title),
        number_rank(vd),
        number_rank(d.number),
        natural_key(d.title),
    );
}

/// Sorting by a key keeps the items, and puts no item behind one whose key
/// comes first.
pub proof fn sorted_items_are_in_order<T>(items: Seq<T>, keys: Seq<Seq<int>>, key: spec_fn(T) -> Seq<int>)
    requires
        keys.len() == items.len(),
        forall|i: int| 0 <= i < items.len() ==> keys[i] == key(#[trigger] items[i]),
    ensures
        sorted_by(items, keys).len() == items.len(),
        forall|x: T| #[trigger] items.contains(x) ==> sorted_by(items, keys).contains(x),
        forall|x: T| #[trigger] sorted_by(items, keys).contains(x) ==> items.contains(x),
        forall|i: int, j: int|
            0 <= i < j < items.len() ==> !key_lt(
                key(#[trigger] sorted_by(items, keys)[j]),
                key(#[trigger] sorted_by(items, keys)[i]),
            ),
{
    let order = stable_order(keys);
    let sorted = sorted_by(items, keys);
    lemma_stable_order(keys, keys.len());
    assert forall|x: T| #[trigger] items.contains(x) implies sorted.contains(x) by {
        let k = choose|k: int| 0 <= k < items.len() && items[k] == x;
        assert(order.contains(k));
        let p = choose|p: int| 0 <= p < order.len() && order[p] == k;
        assert(sorted[p] == x);
    }
    assert forall|x: T| #[trigger] sorted.contains(x) implies items.contains(x) by {
        let p = choose|p: int| 0 <= p < sorted.len() && sorted[p] == x;
        assert(0 <= order[p] < items.len());
        assert(items[order[p]] == x);
    }
    assert forall|i: int, j: int| 0 <= i < j < items.len() implies !key_lt(
        key(#[trigger] sorted[j]),
        key(#[trigger] sorted[i]),
    ) by {
        assert(0 <= order[i] < items.len() && 0 <= order[j] < items.len());
        assert(sorted[i] == items[order[i]] && sorted[j] == items[order[j]]);
        lemma_key_lt_asymmetric(keys[order[i]], keys[order[j]]);
        lemma_key_lt_irreflexive(keys[order[i]]);
    }
}

/// Whether `word` is written with the letters of `small`, each of them small or
/// capital.
pub open spec fn spells(word: Seq<char>, small: Seq<char>) -> bool {
    &&& word.len() == small.len()
    &&& forall|i: int|
        0 <= i < small.len() ==> {
            ||| #[trigger] word[i] == small[i]
            ||| word[i] as u32 + 32 == small[i] as u32
        }
}

proof fn lemma_spelled_char(c: char, small: char)
    requires
        'a' <= small <= 'z' || '0' <= small <= '9',
        c == small || c as u32 + 32 == small as u32 && 'a' <= small <= 'z',
    ensures
        lower_char(c) == small,
{
    if c != small {
        assert('A' <= c <= 'Z');
        assert((c as u32 + 32) as char == small);
    }
}

proof fn lemma_no_capital(c: char)
    ensures
        !('A' <= lower_char(c) <= 'Z'),
{
    if 'A' <= c <= 'Z' {
        let d = (c as u32 + 32) as char;
        assert(d as u32 == c as u32 + 32);
    }
}

/// A word spelled like one of small letters has that as its lower case.
proof fn lemma_spelled(word: Seq<char>, small: Seq<char>)
    requires
        spells(word, small),
        forall|i: int| 0 <= i < small.len() ==> 'a' <= #[trigger] small[i] <= 'z',
    ensures
        lower(word) == small,
{
    assert forall|i: int| 0 <= i < small.len() implies #[trigger] lower(word)[i] == small[i] by {
        assert('a' <= small[i] <= 'z');
        assert(word[i] == small[i] || word[i] as u32 + 32 == small[i] as u32);
        lemma_spelled_char(word[i], small[i]);
    }
    assert(lower(word) =~= small);
}

proof fn lemma_lower_spells(word: Seq<char>)
    ensures
        spells(word, lower(word)),
{
    assert forall|i: int| 0 <= i < word.len() implies #[trigger] word[i] == lower(word)[i] || word[i] as u32
        + 32 == lower(word)[i] as u32 by {
        if word[i] != lower(word)[i] {
            let c = word[i];
            assert('A' <= c <= 'Z');
            assert(lower_char(c) == (c as u32 + 32) as char);
        }
    }
}

/// A word is written with the letters of a word of small letters, in small or
/// capital ones, if that is its lower case.
pub proof fn spelled_words_are_equal_in_lower_case(word: Seq<char>, small: Seq<char>)
    requires
        forall|i: int| 0 <= i < small.len() ==> 'a' <= #[trigger] small[i] <= 'z',
    ensures
        spells(word, small) <==> lower(word) == small,
{
    lemma_lower_spells(word);
    if spells(word, small) {
        lemma_spelled(word, small);
    }
}

/// A folder lists each of its entries but those whose names start with a dot,
/// nothing else, in natural order of their names.
pub proof fn folders_list_what_is_visible(e: FsEntry, v: Vec<FsEntry>)
    requires
        e.listing == DirListing::Entries(v),
    ensures
        listing(e) matches Ok(l) && {
            &&& forall|k: int|
                0 <= k < v@.len() && !(v@[k].path@.name_is_text && v@[k].path@.name.len() > 0
                    && v@[k].path@.name[0] == '.') ==> l.contains(#[trigger] v@[k])
            &&& forall|x: FsEntry| #[trigger]
                l.contains(x) ==> v@.contains(x) && !(x.path@.name_is_text && x.path@.name.len() > 0
                    && x.path@.name[0] == '.')
            &&& forall|i: int, j: int|
                0 <= i < j < l.len() ==> !key_lt(
                    natural_key((#[trigger] l[j]).path@.name),
                    natural_key((#[trigger] l[i]).path@.name),
                )
        },
{
    let w = visible_entries(v@);
    let pred = |x: FsEntry| is_visible(x);
    let key = |x: FsEntry| natural_key(x.path@.name);
    sorted_items_are_in_order(w, name_keys(w), key);
    let l = listing(e)->Ok_0;
    assert forall|k: int|
        0 <= k < v@.len() && !(v@[k].path@.name_is_text && v@[k].path@.name.len() > 0 && v@[k].path@.name[0]
            == '.') implies l.contains(#[trigger] v@[k]) by {
        v@.lemma_filter_contains(pred, k);
        assert(w.contains(v@[k]));
    }
    assert forall|x: FsEntry| #[trigger] l.contains(x) implies v@.contains(x) && !(x.path@.name_is_text
        && x.path@.name.len() > 0 && x.path@.name[0] == '.') by {
        assert(w.contains(x));
        v@.lemma_filter_contains_rev(pred, x);
        let k = choose|k: int| 0 <= k < w.len() && w[k] == x;
        v@.lemma_filter_pred(pred, k);
    }
    assert forall|i: int, j: int| 0 <= i < j < l.len() implies !key_lt(
        natural_key((#[trigger] l[j]).path@.name),
        natural_key((#[trigger] l[i]).path@.name),
    ) by {
        assert(!key_lt(key(l[j]), key(l[i])));
    }
}

/// The pages of images are those images, one by one.
proof fn lemma_pages_of_images(images: Seq<FsEntry>, n: nat)
    requires
        n <= images.len(),
    ensures
        image_pages(images, n) matches Ok(pages) ==> {
            &&& pages.len() == n
            &&& forall|i: int|
                0 <= i < n ==> {
                    &&& (#[trigger] pages[i]).source == SourceModel::File(images[i].path@)
                    &&& file_url_of(images[i].path@) == Some(pages[i].url)
                    &&& images[i].kind matches FsKind::File(bytes) ==> pages[i].bytes == bytes
                    &&& images[i].path@.extension matches Some(x) ==> pages[i].extension == x
                }
        },
        (forall|i: int| 0 <= i < n ==> file_url_of((#[trigger] images[i]).path@) is Some) ==> image_pages(
            images,
            n,
        ) is Ok,
    decreases n,
{
    if n > 0 {
        lemma_pages_of_images(images, (n - 1) as nat);
        if let Ok(pages) = image_pages(images, n) {
            let before = image_pages(images, (n - 1) as nat)->Ok_0;
            assert forall|i: int| 0 <= i < n implies {
                &&& (#[trigger] pages[i]).source == SourceModel::File(images[i].path@)
                &&& file_url_of(images[i].path@) == Some(pages[i].url)
                &&& images[i].kind matches FsKind::File(bytes) ==> pages[i].bytes == bytes
                &&& images[i].path@.extension matches Some(x) ==> pages[i].extension == x
            } by {
                if i < n - 1 {
                    assert(pages[i] == before[i]);
                }
            }
        }
        if forall|i: int| 0 <= i < n ==> file_url_of((#[trigger] images[i]).path@) is Some {
            assert(image_pages(images, (n - 1) as nat) is Ok);
            assert(file_url_of(images[n - 1].path@) is Some);
            assert(image_page(images[n - 1]) is Ok);
        }
    }
}

proof fn lemma_extensions()
    ensures
        forall|i: int| 0 <= i < "jpg"@.len() ==> 'a' <= #[trigger] "jpg"@[i] <= 'z',
        forall|i: int| 0 <= i < "jpeg"@.len() ==> 'a' <= #[trigger] "jpeg"@[i] <= 'z',
        forall|i: int| 0 <= i < "png"@.len() ==> 'a' <= #[trigger] "png"@[i] <= 'z',
        forall|i: int| 0 <= i < "webp"@.len() ==> 'a' <= #[trigger] "webp"@[i] <= 'z',
        forall|i: int| 0 <= i < "gif"@.len() ==> 'a' <= #[trigger] "gif"@[i] <= 'z',
        forall|i: int| 0 <= i < "bmp"@.len() ==> 'a' <= #[trigger] "bmp"@[i] <= 'z',
        forall|i: int| 0 <= i < "avif"@.len() ==> 'a' <= #[trigger] "avif"@[i] <= 'z',
        forall|i: int| 0 <= i < "cbz"@.len() ==> 'a' <= #[trigger] "cbz"@[i] <= 'z',
        forall|i: int| 0 <= i < "zip"@.len() ==> 'a' <= #[trigger] "zip"@[i] <= 'z',
        forall|i: int| 0 <= i < "cbr"@.len() ==> 'a' <= #[trigger] "cbr"@[i] <= 'z',
        forall|i: int| 0 <= i < "rar"@.len() ==> 'a' <= #[trigger] "rar"@[i] <= 'z',
        forall|i: int| 0 <= i < "epub"@.len() ==> 'a' <= #[trigger] "epub"@[i] <= 'z',
{
    reveal_strlit("jpg");
    reveal_strlit("jpeg");
    reveal_strlit("png");
    reveal_strlit("webp");
    reveal_strlit("gif");
    reveal_strlit("bmp");
    reveal_strlit("avif");
    reveal_strlit("cbz");
    reveal_strlit("zip");
    reveal_strlit("cbr");
    reveal_strlit("rar");
    reveal_strlit("epub");
}

/// A path has the extension of an image if that is jpg, jpeg, png, webp, gif,
/// bmp or avif, in small or capital letters, and only then.
pub proof fn images_have_seven_extensions(path: PathModel)
    ensures
        is_image(path) <==> (path.extension matches Some(x) && (spells(x, "jpg"@) || spells(
            x,
            "jpeg"@,
        ) || spells(x, "png"@) || spells(x, "webp"@) || spells(x, "gif"@) || spells(x, "bmp"@) || spells(
            x,
            "avif"@,
        ))),
{
    lemma_extensions();
    if let Some(x) = path.extension {
        lemma_lower_spells(x);
        if spells(x, "jpg"@) {
            lemma_spelled(x, "jpg"@);
        }
        if spells(x, "jpeg"@) {
            lemma_spelled(x, "jpeg"@);
        }
        if spells(x, "png"@) {
            lemma_spelled(x, "png"@);
        }
        if spells(x, "webp"@) {
            lemma_spelled(x, "webp"@);
        }
        if spells(x, "gif"@) {
            lemma_spelled(x, "gif"@);
        }
        if spells(x, "bmp"@) {
            lemma_spelled(x, "bmp"@);
        }
        if spells(x, "avif"@) {
            lemma_spelled(x, "avif"@);
        }
    }
}

/// A path has the extension of an archive if that is cbz or zip, cbr or rar, or
/// epub, in small or capital letters, and only then; these three kinds are read
/// each in its own format.
pub proof fn archives_have_five_extensions(path: PathModel)
    ensures
        ({
            let format = archive_format(lower_extension(path));
            &&& format == Some(LocalChapterFormat::Cbz) <==> (path.extension matches Some(x) && (spells(
                x,
                "cbz"@,
            ) || spells(x, "zip"@)))
            &&& format == Some(LocalChapterFormat::Cbr) <==> (path.extension matches Some(x) && (spells(
                x,
                "cbr"@,
            ) || spells(x, "rar"@)))
            &&& format == Some(LocalChapterFormat::Epub) <==> (path.extension matches Some(x) && spells(
                x,
                "epub"@,
            ))
            &&& format != Some(LocalChapterFormat::ImageFolder)
            &&& is_archive(path) <==> (path.extension matches Some(x) && (spells(x, "cbz"@)
                || spells(x, "zip"@) || spells(x, "cbr"@) || spells(x, "rar"@) || spells(x, "epub"@)))
        }),
{
    lemma_extensions();
    reveal_strlit("cbz");
    reveal_strlit("zip");
    reveal_strlit("cbr");
    reveal_strlit("rar");
    reveal_strlit("epub");
    assert("cbz"@[2] == 'z' && "cbr"@[2] == 'r' && "zip"@[2] == 'p' && "rar"@[2] == 'r' && "epub"@[2] == 'u');
    if let Some(x) = path.extension {
        lemma_lower_spells(x);
        if spells(x, "cbz"@) {
            lemma_spelled(x, "cbz"@);
        }
        if spells(x, "zip"@) {
            lemma_spelled(x, "zip"@);
        }
        if spells(x, "cbr"@) {
            lemma_spelled(x, "cbr"@);
        }
        if spells(x, "rar"@) {
            lemma_spelled(x, "rar"@);
        }
        if spells(x, "epub"@) {
            lemma_spelled(x, "epub"@);
        }
    }
}

/// In a folder without chapters or volumes every visible file whose extension is
/// jpg, jpeg, png, webp, gif, bmp or avif, in small or capital letters, is a page
/// of the one chapter; the library can be read if every such file has a URL.
pub proof fn image_files_are_pages(e: FsEntry, v: Vec<FsEntry>, k: int, x: Seq<char>)
    requires
        e.listing == DirListing::Entries(v),
        archives_shallow(e) == Ok::<Seq<FsEntry>, ErrorModel>(Seq::empty()),
        chapter_dirs_in(e) == Ok::<Seq<FsEntry>, ErrorModel>(Seq::empty()),
        volume_dirs_in(e) == Ok::<Seq<FsEntry>, ErrorModel>(Seq::empty()),
        0 <= k < v@.len(),
        v@[k].kind is File,
        !(v@[k].path@.name_is_text && v@[k].path@.name.len() > 0 && v@[k].path@.name[0] == '.'),
        v@[k].path@.extension == Some(x),
        spells(x, "jpg"@) || spells(x, "jpeg"@) || spells(x, "png"@) || spells(x, "webp"@) || spells(x, "gif"@)
            || spells(x, "bmp"@) || spells(x, "avif"@),
    ensures
        scanned(e) matches Ok(mangas) ==> {
            &&& mangas.len() == 1
            &&& mangas[0].chapters.len() == 1
            &&& mangas[0].chapters[0].format == LocalChapterFormat::ImageFolder
            &&& exists|p: int|
                0 <= p < mangas[0].chapters[0].pages.len() && (#[trigger] mangas[0].chapters[0].pages[p]).source
                    == SourceModel::File(v@[k].path@) && file_url_of(v@[k].path@) == Some(
                    mangas[0].chapters[0].pages[p].url,
                )
        },
        (forall|i: int| 0 <= i < v@.len() ==> file_url_of((#[trigger] v@[i]).path@) is Some) ==> scanned(
            e,
        ) is Ok,
{
    folders_list_what_is_visible(e, v);
    images_have_seven_extensions(v@[k].path@);
    let l = listing(e)->Ok_0;
    let pred = |f: FsEntry| is_file(f) && is_image(f.path@);
    let images = image_files(l);
    assert(l.contains(v@[k]));
    let q = choose|q: int| 0 <= q < l.len() && l[q] == v@[k];
    l.lemma_filter_contains(pred, q);
    assert(images.contains(v@[k]));
    let p = choose|p: int| 0 <= p < images.len() && images[p] == v@[k];
    lemma_pages_of_images(images, images.len());
    if let Ok(mangas) = scanned(e) {
        let pages = image_pages(images, images.len())->Ok_0;
        assert(mangas[0].chapters[0].pages == pages);
        assert(pages[p].source == SourceModel::File(v@[k].path@));
        assert(mangas[0].chapters[0].pages[p].source == SourceModel::File(v@[k].path@));
    }
    if forall|i: int| 0 <= i < v@.len() ==> file_url_of((#[trigger] v@[i]).path@) is Some {
        assert forall|i: int| 0 <= i < images.len() implies file_url_of((#[trigger] images[i]).path@) is Some by {
            assert(images.contains(images[i]));
            l.lemma_filter_contains_rev(pred, images[i]);
            assert(v@.contains(images[i]));
        }
        assert forall|i: int| 0 <= i < l.len() implies file_url_of((#[trigger] l[i]).path@) is Some by {
            assert(l.contains(l[i]));
            assert(v@.contains(l[i]));
        }
        lemma_first_cover_is_listed(l);
    }
}

proof fn lemma_first_cover_is_listed(l: Seq<FsEntry>)
    ensures
        first_cover(l) matches Some(c) ==> l.contains(c),
    decreases l.len(),
{
    if l.len() > 0 {
        lemma_first_cover_is_listed(l.skip(1));
        if let Some(c) = first_cover(l) {
            if c == l[0] {
            } else {
                let k = choose|k: int| 0 <= k < l.skip(1).len() && l.skip(1)[k] == c;
                assert(l[k + 1] == c);
            }
        }
    }
}

/// Each page of a folder of images is a visible file of it with one of the seven
/// extensions, of the size of the file, and the pages stand in natural order of the names of the files.
pub proof fn pages_are_image_files(e: FsEntry, v: Vec<FsEntry>, i: int)
    requires
        e.listing == DirListing::Entries(v),
        archives_shallow(e) == Ok::<Seq<FsEntry>, ErrorModel>(Seq::empty()),
        chapter_dirs_in(e) == Ok::<Seq<FsEntry>, ErrorModel>(Seq::empty()),
        volume_dirs_in(e) == Ok::<Seq<FsEntry>, ErrorModel>(Seq::empty()),
        images_shallow(e)->Ok_0.len() > 0,
        scanned(e) is Ok,
        0 <= i < scanned(e)->Ok_0[0].chapters[0].pages.len(),
    ensures
        ({
            let pages = scanned(e)->Ok_0[0].chapters[0].pages;
            &&& pages[i].source matches SourceModel::File(f) && {
                &&& f.extension matches Some(x) && (spells(x, "jpg"@) || spells(x, "jpeg"@) || spells(
                    x,
                    "png"@,
                ) || spells(x, "webp"@) || spells(x, "gif"@) || spells(x, "bmp"@) || spells(x, "avif"@))
                &&& exists|k: int|
                    0 <= k < v@.len() && (#[trigger] v@[k]).kind == FsKind::File(pages[i].bytes) && v@[k].path@ == f
                        && !(f.name_is_text && f.name.len() > 0 && f.name[0] == '.')
                &&& f.extension == Some(pages[i].extension)
                &&& file_url_of(f) == Some(pages[i].url)
                &&& forall|j: int|
                    i < j < pages.len() ==> ((#[trigger] pages[j]).source matches SourceModel::File(g)
                        && !key_lt(natural_key(g.name), natural_key(f.name)))
            }
        }),
{
    folders_list_what_is_visible(e, v);
    let l = listing(e)->Ok_0;
    let images = image_files(l);
    let pred = |f: FsEntry| is_file(f) && is_image(f.path@);
    lemma_pages_of_images(images, images.len());
    let pages = scanned(e)->Ok_0[0].chapters[0].pages;
    assert(pages == image_pages(images, images.len())->Ok_0);
    assert(images.contains(images[i]));
    l.lemma_filter_contains_rev(pred, images[i]);
    l.lemma_filter_pred(pred, i);
    images_have_seven_extensions(images[i].path@);
    assert(v@.contains(images[i]));
    let f = images[i].path@;
    let k = choose|k: int| 0 <= k < v@.len() && v@[k] == images[i];
    assert(v@[k].kind == FsKind::File(pages[i].bytes) && v@[k].path@ == f);
    assert forall|j: int| i < j < pages.len() implies ((#[trigger] pages[j]).source matches SourceModel::File(g)
        && !key_lt(natural_key(g.name), natural_key(f.name))) by {
        lemma_filter_keeps_order(l, pred, i, j);
        let (a, b) = choose|a: int, b: int| 0 <= a < b < l.len() && #[trigger] l[a] == images[i] && #[trigger] l[b] == images[j];
        assert(!key_lt(natural_key(l[b].path@.name), natural_key(l[a].path@.name)));
    }
}

/// What a filter leaves stands as it stood before.
proof fn lemma_filter_keeps_order<T>(s: Seq<T>, pred: spec_fn(T) -> bool, i: int, j: int)
    requires
        0 <= i < j < s.filter(pred).len(),
    ensures
        exists|a: int, b: int|
            0 <= a < b < s.len() && #[trigger] s[a] == s.filter(pred)[i] && #[trigger] s[b] == s.filter(pred)[j],
    decreases s.len(),
{
    reveal(Seq::filter);
    let f = s.filter(pred);
    let rest = s.drop_last();
    let g = rest.filter(pred);
    if pred(s.last()) && j == f.len() - 1 {
        assert(f[j] == s.last());
        assert(f[i] == g[i]);
        assert(g.contains(g[i]));
        rest.lemma_filter_contains_rev(pred, g[i]);
        let a = choose|a: int| 0 <= a < rest.len() && rest[a] == g[i];
        assert(s[a] == f[i] && s[s.len() - 1] == f[j]);
    } else {
        assert(f[i] == g[i] && f[j] == g[j]);
        lemma_filter_keeps_order(rest, pred, i, j);
        let (a, b) = choose|a: int, b: int|
            0 <= a < b < rest.len() && #[trigger] rest[a] == g[i] && #[trigger] rest[b] == g[j];
        assert(s[a] == f[i] && s[b] == f[j]);
    }
}

proof fn lemma_image_names(members: Seq<ArchiveMember>)
    ensures
        forall|k: int|
            0 <= k < members.len() && !(#[trigger] members[k]).is_directory && is_image(path_of(members[k].name@))
                ==> image_names(members).contains(members[k].name@),
        forall|n: Seq<char>| #[trigger]
            image_names(members).contains(n) ==> is_image(path_of(n)) && exists|k: int|
                0 <= k < members.len() && !(#[trigger] members[k]).is_directory && members[k].name@ == n,
    decreases members.len(),
{
    if members.len() > 0 {
        let rest = members.drop_last();
        let names = image_names(members);
        let before = image_names(rest);
        lemma_image_names(rest);
        assert forall|k: int|
            0 <= k < members.len() && !(#[trigger] members[k]).is_directory && is_image(
                path_of(members[k].name@),
            ) implies names.contains(members[k].name@) by {
            if k == members.len() - 1 {
                assert(names[names.len() - 1] == members[k].name@);
            } else {
                assert(rest[k] == members[k]);
                assert(before.contains(rest[k].name@));
                let q = choose|q: int| 0 <= q < before.len() && before[q] == rest[k].name@;
                assert(names[q] == before[q]);
            }
        }
        assert forall|n: Seq<char>| #[trigger] names.contains(n) implies is_image(path_of(n)) && exists|k: int|
            0 <= k < members.len() && !(#[trigger] members[k]).is_directory && members[k].name@ == n by {
            let q = choose|q: int| 0 <= q < names.len() && names[q] == n;
            if q < before.len() {
                assert(before[q] == n);
                assert(before.contains(n));
                let k = choose|k: int|
                    0 <= k < rest.len() && !(#[trigger] rest[k]).is_directory && rest[k].name@ == n;
                assert(members[k] == rest[k]);
            } else {
                assert(members[members.len() - 1].name@ == n);
            }
        }
    }
}

/// Every member of an archive whose extension is jpg, jpeg, png, webp, gif, bmp
/// or avif, in small or capital letters, is a page of the chapter that the
/// archive is; a file named like an archive with such a member is a chapter.
pub proof fn image_members_are_pages(
    e: FsEntry,
    v: Vec<ArchiveMember>,
    k: int,
    x: Seq<char>,
    number: nat,
    volume: Option<Seq<char>>,
)
    requires
        !(e.kind is Directory),
        e.members == ArchiveListing::Members(v),
        0 <= k < v@.len(),
        !v@[k].is_directory,
        path_of(v@[k].name@).extension == Some(x),
        spells(x, "jpg"@) || spells(x, "jpeg"@) || spells(x, "png"@) || spells(x, "webp"@) || spells(x, "gif"@)
            || spells(x, "bmp"@) || spells(x, "avif"@),
    ensures
        chapter_of(e, number, volume) is Ok <==> (e.path@.extension matches Some(y) && (spells(y, "cbz"@)
            || spells(y, "zip"@) || spells(y, "cbr"@) || spells(y, "rar"@) || spells(y, "epub"@))),
        chapter_of(e, number, volume) matches Ok(c) ==> exists|p: int|
            0 <= p < c.pages.len() && {
                let source = (#[trigger] c.pages[p]).source;
                if e.path@.extension matches Some(y) && (spells(y, "cbr"@) || spells(y, "rar"@)) {
                    source == (SourceModel::RarEntry { archive_path: e.path@, entry_name: v@[k].name@ })
                } else {
                    source == (SourceModel::ZipEntry { archive_path: e.path@, entry_name: v@[k].name@ })
                }
            },
{
    lemma_image_names(v@);
    images_have_seven_extensions(path_of(v@[k].name@));
    archives_have_five_extensions(e.path@);
    let names = image_names(v@);
    let key = |n: Seq<char>| natural_key(n);
    sorted_items_are_in_order(names, natural_keys(names), key);
    let sorted = sorted_by(names, natural_keys(names));
    assert(names.contains(v@[k].name@));
    assert(sorted.contains(v@[k].name@));
    let p = choose|p: int| 0 <= p < sorted.len() && sorted[p] == v@[k].name@;
    if let Ok(c) = chapter_of(e, number, volume) {
        assert(c == archive_chapter(e, number, volume)->Ok_0);
        assert(archive_images(e) == Ok::<Seq<Seq<char>>, ErrorModel>(sorted));
        assert(c.pages.len() == sorted.len());
        let source = c.pages[p].source;
        assert(if e.path@.extension matches Some(y) && (spells(y, "cbr"@) || spells(y, "rar"@)) {
            source == (SourceModel::RarEntry { archive_path: e.path@, entry_name: v@[k].name@ })
        } else {
            source == (SourceModel::ZipEntry { archive_path: e.path@, entry_name: v@[k].name@ })
        });
    }
}

/// Each page of an archive is a member of it with one of the seven extensions;
/// the pages stand in natural order of the names of the members, and the URL of
/// each names the chapter and its place.
pub proof fn pages_are_image_members(
    e: FsEntry,
    v: Vec<ArchiveMember>,
    number: nat,
    volume: Option<Seq<char>>,
    i: int,
)
    requires
        !(e.kind is Directory),
        e.members == ArchiveListing::Members(v),
        chapter_of(e, number, volume) is Ok,
        0 <= i < chapter_of(e, number, volume)->Ok_0.pages.len(),
    ensures
        ({
            let c = chapter_of(e, number, volume)->Ok_0;
            let name_at = |p: int|
                match c.pages[p].source {
                    SourceModel::RarEntry { entry_name, .. } => entry_name,
                    SourceModel::ZipEntry { entry_name, .. } => entry_name,
                    SourceModel::File(_) => Seq::empty(),
                };
            &&& !(c.pages[i].source is File)
            &&& c.pages[i].bytes == 0
            &&& exists|k: int|
                0 <= k < v@.len() && !(#[trigger] v@[k]).is_directory && v@[k].name@ == name_at(i)
            &&& path_of(name_at(i)).extension matches Some(x) && (spells(x, "jpg"@) || spells(x, "jpeg"@)
                || spells(x, "png"@) || spells(x, "webp"@) || spells(x, "gif"@) || spells(x, "bmp"@) || spells(
                x,
                "avif"@,
            )) && spells(x, c.pages[i].extension) && forall|q: int|
                0 <= q < x.len() ==> !('A' <= #[trigger] c.pages[i].extension[q] <= 'Z')
            &&& c.pages[i].url == "local://page/"@ + c.id + "/"@ + decimal(i as nat)
            &&& forall|j: int|
                i < j < c.pages.len() ==> !key_lt(natural_key(#[trigger] name_at(j)), natural_key(name_at(i)))
        }),
{
    lemma_image_names(v@);
    let names = image_names(v@);
    let key = |n: Seq<char>| natural_key(n);
    sorted_items_are_in_order(names, natural_keys(names), key);
    let sorted = sorted_by(names, natural_keys(names));
    let c = chapter_of(e, number, volume)->Ok_0;
    let name_at = |p: int|
        match c.pages[p].source {
            SourceModel::RarEntry { entry_name, .. } => entry_name,
            SourceModel::ZipEntry { entry_name, .. } => entry_name,
            SourceModel::File(_) => Seq::empty(),
        };
    assert(c == archive_chapter(e, number, volume)->Ok_0);
    assert(c.pages.len() == sorted.len());
    assert(name_at(i) == sorted[i]);
    assert(sorted.contains(sorted[i]));
    assert(names.contains(sorted[i]));
    images_have_seven_extensions(path_of(sorted[i]));
    let x = path_of(sorted[i]).extension->Some_0;
    lemma_lower_spells(x);
    assert forall|q: int| 0 <= q < x.len() implies !('A' <= #[trigger] lower(x)[q] <= 'Z') by {
        assert(lower(x)[q] == lower_char(x[q]));
        lemma_no_capital(x[q]);
    }
    assert forall|j: int| i < j < c.pages.len() implies !key_lt(
        natural_key(#[trigger] name_at(j)),
        natural_key(name_at(i)),
    ) by {
        assert(name_at(j) == sorted[j]);
        assert(!key_lt(key(sorted[j]), key(sorted[i])));
    }
}

proof fn lemma_images_below_dirs(l: Seq<FsEntry>, n: nat, i: int)
    requires
        0 <= i < n <= l.len(),
        l[i].kind is Directory,
        images_below_dirs(l, n) is Ok,
    ensures
        images_below(l[i]) is Ok,
        forall|x: FsEntry| #[trigger]
            images_below(l[i])->Ok_0.contains(x) ==> images_below_dirs(l, n)->Ok_0.contains(x),
    decreases n,
{
    let all = images_below_dirs(l, n)->Ok_0;
    let rest = images_below_dirs(l, (n - 1) as nat);
    let own = images_below(l[i])->Ok_0;
    if i < n - 1 {
        lemma_images_below_dirs(l, (n - 1) as nat, i);
        assert forall|x: FsEntry| #[trigger] own.contains(x) implies all.contains(x) by {
            assert(rest->Ok_0.contains(x));
            let q = choose|q: int| 0 <= q < rest->Ok_0.len() && rest->Ok_0[q] == x;
            if l[n - 1].kind is Directory {
                let first = images_below(l[n - 1])->Ok_0;
                assert(all[first.len() + q] == x);
            } else {
                assert(all[q] == x);
            }
        }
    } else {
        assert forall|x: FsEntry| #[trigger] own.contains(x) implies all.contains(x) by {
            let q = choose|q: int| 0 <= q < own.len() && own[q] == x;
            assert(all[q] == x);
        }
    }
}

/// What a folder lists is in all images below it: images themselves, folders
/// with their images.
proof fn lemma_images_below(e: FsEntry, i: int)
    requires
        images_below(e) is Ok,
        0 <= i < listing(e)->Ok_0.len(),
    ensures
        ({
            let x = listing(e)->Ok_0[i];
            let all = images_below(e)->Ok_0;
            if x.kind is Directory {
                &&& images_below(x) is Ok
                &&& forall|y: FsEntry| #[trigger] images_below(x)->Ok_0.contains(y) ==> all.contains(y)
            } else {
                is_image(x.path@) ==> all.contains(x)
            }
        }),
{
    let l = listing(e)->Ok_0;
    let x = l[i];
    let all = images_below(e)->Ok_0;
    let own = images_listed(l);
    let rest = images_below_dirs(l, l.len())->Ok_0;
    assert(all == own + rest);
    if x.kind is Directory {
        lemma_images_below_dirs(l, l.len(), i);
        assert forall|y: FsEntry| #[trigger] images_below(x)->Ok_0.contains(y) implies all.contains(y) by {
            let q = choose|q: int| 0 <= q < rest.len() && rest[q] == y;
            assert(all[own.len() + q] == y);
        }
    } else if is_image(x.path@) {
        let pred = |f: FsEntry| !is_dir(f) && is_image(f.path@);
        l.lemma_filter_contains(pred, i);
        let q = choose|q: int| 0 <= q < own.len() && own[q] == x;
        assert(all[q] == x);
    }
}

proof fn lemma_only_images_below_dirs(l: Seq<FsEntry>, n: nat)
    requires
        n <= l.len(),
    ensures
        images_below_dirs(l, n) matches Ok(all) ==> forall|x: FsEntry| #[trigger]
            all.contains(x) ==> !(x.kind is Directory) && is_image(x.path@),
    decreases max_depth(l, n), n,
{
    if n > 0 {
        if let Ok(all) = images_below_dirs(l, n) {
            lemma_only_images_below_dirs(l, (n - 1) as nat);
            let rest = images_below_dirs(l, (n - 1) as nat)->Ok_0;
            if l[n - 1].kind is Directory {
                lemma_only_images_below(l[n - 1]);
                let first = images_below(l[n - 1])->Ok_0;
                assert forall|x: FsEntry| #[trigger] all.contains(x) implies !(x.kind is Directory) && is_image(
                    x.path@,
                ) by {
                    let q = choose|q: int| 0 <= q < all.len() && all[q] == x;
                    if q < first.len() {
                        assert(first[q] == x);
                        assert(first.contains(x));
                    } else {
                        assert(rest[q - first.len()] == x);
                        assert(rest.contains(x));
                    }
                }
            }
        }
    }
}

proof fn lemma_only_images_below(e: FsEntry)
    ensures
        images_below(e) matches Ok(all) ==> forall|x: FsEntry| #[trigger]
            all.contains(x) ==> !(x.kind is Directory) && is_image(x.path@),
    decreases depth(e), 0nat,
{
    if let Ok(all) = images_below(e) {
        let l = listing(e)->Ok_0;
        lemma_listing_depth(e);
        lemma_only_images_below_dirs(l, l.len());
        let own = images_listed(l);
        let rest = images_below_dirs(l, l.len())->Ok_0;
        let pred = |f: FsEntry| !is_dir(f) && is_image(f.path@);
        assert forall|x: FsEntry| #[trigger] all.contains(x) implies !(x.kind is Directory) && is_image(
            x.path@,
        ) by {
            let q = choose|q: int| 0 <= q < all.len() && all[q] == x;
            if q < own.len() {
                l.lemma_filter_pred(pred, q);
            } else {
                assert(rest[q - own.len()] == x);
                assert(rest.contains(x));
            }
        }
    }
}

/// The chapter of a folder has a page for each visible file in it whose
/// extension is jpg, jpeg, png, webp, gif, bmp or avif, in small or capital
/// letters, and every page of the chapters that the folders in it would be.
pub proof fn folders_hold_the_pages_below(
    e: FsEntry,
    v: Vec<FsEntry>,
    k: int,
    number: nat,
    volume: Option<Seq<char>>,
)
    requires
        e.kind is Directory,
        e.listing == DirListing::Entries(v),
        chapter_of(e, number, volume) is Ok,
        0 <= k < v@.len(),
        !(v@[k].path@.name_is_text && v@[k].path@.name.len() > 0 && v@[k].path@.name[0] == '.'),
    ensures
        ({
            let pages = chapter_of(e, number, volume)->Ok_0.pages;
            let f = v@[k];
            &&& !(f.kind is Directory) && (f.path@.extension matches Some(x) && (spells(x, "jpg"@) || spells(
                x,
                "jpeg"@,
            ) || spells(x, "png"@) || spells(x, "webp"@) || spells(x, "gif"@) || spells(x, "bmp"@) || spells(
                x,
                "avif"@,
            ))) ==> exists|p: int|
                0 <= p < pages.len() && (#[trigger] pages[p]).source == SourceModel::File(f.path@)
            &&& f.kind is Directory ==> (chapter_of(f, number, volume) matches Ok(inner) ==> forall|q: int|
                0 <= q < inner.pages.len() ==> exists|p: int|
                    0 <= p < pages.len() && (#[trigger] pages[p]).source == (#[trigger] inner.pages[q]).source)
        }),
{
    folders_list_what_is_visible(e, v);
    let f = v@[k];
    let l = listing(e)->Ok_0;
    assert(l.contains(f));
    let i = choose|i: int| 0 <= i < l.len() && l[i] == f;
    lemma_images_below(e, i);
    let all = images_below(e)->Ok_0;
    let key = |x: FsEntry| natural_key(x.path@.text);
    sorted_items_are_in_order(all, path_keys(all), key);
    let images = images_recursive(e)->Ok_0;
    lemma_pages_of_images(images, images.len());
    let pages = chapter_of(e, number, volume)->Ok_0.pages;
    assert(pages == image_pages(images, images.len())->Ok_0);
    images_have_seven_extensions(f.path@);
    if !(f.kind is Directory) && is_image(f.path@) {
        assert(all.contains(f));
        assert(images.contains(f));
        let p = choose|p: int| 0 <= p < images.len() && images[p] == f;
        assert(pages[p].source == SourceModel::File(f.path@));
    }
    if f.kind is Directory {
        if let Ok(inner) = chapter_of(f, number, volume) {
            let below = images_below(f)->Ok_0;
            sorted_items_are_in_order(below, path_keys(below), key);
            let found = images_recursive(f)->Ok_0;
            lemma_pages_of_images(found, found.len());
            assert(inner.pages == image_pages(found, found.len())->Ok_0);
            assert forall|q: int| 0 <= q < inner.pages.len() implies exists|p: int|
                0 <= p < pages.len() && (#[trigger] pages[p]).source == (#[trigger] inner.pages[q]).source by {
                assert(found.contains(found[q]));
                assert(below.contains(found[q]));
                assert(all.contains(found[q]));
                assert(images.contains(found[q]));
                let p = choose|p: int| 0 <= p < images.len() && images[p] == found[q];
                assert(pages[p].source == inner.pages[q].source);
            }
        }
    }
}

/// Each page of the chapter of a folder is a file with one of the seven
/// extensions, and the pages stand in natural order of the paths of the files.
pub proof fn pages_of_folders_are_in_order(e: FsEntry, number: nat, volume: Option<Seq<char>>, i: int)
    requires
        e.kind is Directory,
        chapter_of(e, number, volume) is Ok,
        0 <= i < chapter_of(e, number, volume)->Ok_0.pages.len(),
    ensures
        ({
            let pages = chapter_of(e, number, volume)->Ok_0.pages;
            &&& chapter_of(e, number, volume)->Ok_0.format == LocalChapterFormat::ImageFolder
            &&& pages[i].source matches SourceModel::File(f) && {
                &&& file_url_of(f) == Some(pages[i].url)
                &&& f.extension matches Some(x) && (spells(x, "jpg"@) || spells(x, "jpeg"@) || spells(
                    x,
                    "png"@,
                ) || spells(x, "webp"@) || spells(x, "gif"@) || spells(x, "bmp"@) || spells(x, "avif"@))
                &&& forall|j: int|
                    i < j < pages.len() ==> ((#[trigger] pages[j]).source matches SourceModel::File(g)
                        && !key_lt(natural_key(g.text), natural_key(f.text)))
            }
        }),
{
    lemma_only_images_below(e);
    let all = images_below(e)->Ok_0;
    let key = |x: FsEntry| natural_key(x.path@.text);
    sorted_items_are_in_order(all, path_keys(all), key);
    let images = images_recursive(e)->Ok_0;
    lemma_pages_of_images(images, images.len());
    let pages = chapter_of(e, number, volume)->Ok_0.pages;
    assert(pages == image_pages(images, images.len())->Ok_0);
    assert(pages[i].source == SourceModel::File(images[i].path@));
    assert(images.contains(images[i]));
    assert(all.contains(images[i]));
    images_have_seven_extensions(images[i].path@);
    let f = images[i].path@;
    assert forall|j: int| i < j < pages.len() implies ((#[trigger] pages[j]).source matches SourceModel::File(g)
        && !key_lt(natural_key(g.text), natural_key(f.text))) by {
        assert(!key_lt(key(images[j]), key(images[i])));
    }
}

/// Items with the same key stay as they stood before sorting.
pub proof fn sorting_keeps_equal_items_in_place<T>(items: Seq<T>, keys: Seq<Seq<int>>, i: int, j: int)
    requires
        keys.len() == items.len(),
        0 <= i < j < items.len(),
        keys[i] == keys[j],
    ensures
        exists|a: int, b: int|
            0 <= a < b < items.len() && #[trigger] sorted_by(items, keys)[a] == items[i] && #[trigger] sorted_by(
                items,
                keys,
            )[b] == items[j],
{
    let order = stable_order(keys);
    lemma_stable_order(keys, keys.len());
    assert(order.contains(i) && order.contains(j));
    let a = choose|a: int| 0 <= a < order.len() && order[a] == i;
    let b = choose|b: int| 0 <= b < order.len() && order[b] == j;
    lemma_key_lt_irreflexive(keys[i]);
    if b < a {
        assert(key_lt(keys[order[b]], keys[order[a]]) || order[b] < order[a]);
    }
    let sorted = sorted_by(items, keys);
    assert(sorted[a] == items[i] && sorted[b] == items[j]);
}

/// A folder lists each visible entry as often as it has it.
pub proof fn entries_are_listed_once(e: FsEntry, v: Vec<FsEntry>)
    requires
        e.listing == DirListing::Entries(v),
    ensures
        listing(e) matches Ok(l) && l.to_multiset() == v@.filter(
            |x: FsEntry| !(x.path@.name_is_text && x.path@.name.len() > 0 && x.path@.name[0] == '.'),
        ).to_multiset(),
{
    let shown = |x: FsEntry| !(x.path@.name_is_text && x.path@.name.len() > 0 && x.path@.name[0] == '.');
    let pred = |x: FsEntry| is_visible(x);
    assert(shown =~= pred);
    let w = visible_entries(v@);
    sorting_keeps_items(w, name_keys(w));
}

proof fn lemma_count_of_image_names(members: Seq<ArchiveMember>)
    ensures
        image_names(members).len() == members.filter(
            |m: ArchiveMember| !m.is_directory && is_image(path_of(m.name@)),
        ).len(),
    decreases members.len(),
{
    reveal(Seq::filter);
    if members.len() > 0 {
        lemma_count_of_image_names(members.drop_last());
    }
}

/// An archive has as many pages as it has members that are images. One without
/// any is refused, as is one that cannot be read or is not named like an archive.
pub proof fn archives_without_images_are_refused(e: FsEntry, number: nat, volume: Option<Seq<char>>)
    requires
        !(e.kind is Directory),
    ensures
        !is_archive(e.path@) ==> chapter_of(e, number, volume) == Err::<ChapterModel, ErrorModel>(
            ErrorModel::UnsupportedArchive(e.path@.text),
        ),
        is_archive(e.path@) ==> match e.members {
            ArchiveListing::Unreadable(message) => chapter_of(e, number, volume) == Err::<ChapterModel, ErrorModel>(
                ErrorModel::Io(message@),
            ),
            ArchiveListing::Members(v) => {
                let images = v@.filter(|m: ArchiveMember| !m.is_directory && is_image(path_of(m.name@)));
                match chapter_of(e, number, volume) {
                    Ok(c) => images.len() > 0 && c.pages.len() == images.len(),
                    Err(x) => images.len() == 0 && x == ErrorModel::NoImages(e.path@.text),
                }
            },
        },
{
    if let ArchiveListing::Members(v) = e.members {
        lemma_count_of_image_names(v@);
        let names = image_names(v@);
        let key = |n: Seq<char>| natural_key(n);
        sorted_items_are_in_order(names, natural_keys(names), key);
    }
}

/// A folder that cannot be read is reported with the reason, and one without
/// images in it or below it is no chapter.
pub proof fn unreadable_and_empty_folders_are_refused(e: FsEntry, number: nat, volume: Option<Seq<char>>)
    ensures
        e.listing matches DirListing::Unreadable(message) ==> {
            &&& listing(e) == Err::<Seq<FsEntry>, ErrorModel>(ErrorModel::Io(message@))
            &&& scanned(e) == Err::<Seq<MangaModel>, ErrorModel>(ErrorModel::Io(message@))
            &&& e.kind is Directory ==> chapter_of(e, number, volume) == Err::<ChapterModel, ErrorModel>(
                ErrorModel::Io(message@),
            )
        },
        e.kind is Directory && images_recursive(e) == Ok::<Seq<FsEntry>, ErrorModel>(Seq::empty()) ==> chapter_of(
            e,
            number,
            volume,
        ) == Err::<ChapterModel, ErrorModel>(ErrorModel::NoImages(e.path@.text)),
{
}

} // verus!
