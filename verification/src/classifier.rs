//! Extension-based file classification and per-category statistics.

use vstd::prelude::*;
use vstd::string::{StrSliceExecFns, StringSliceAdditionalSpecFns};

use crate::text::{bytes_eq, contains_sub, find_last, has_sub, last_index_of, lower_bytes, lower_seq};
use crate::types::{FileNode, FileType};

verus! {

/// Statistics for a specific file category.
#[derive(Debug, Clone, Copy)]
pub struct CategoryStats {
    pub category: FileType,
    pub total_size: u64,
    pub file_count: u64,
}

/// The (lower-cased) extension of a path: the bytes after the last
/// dot of the final path component, unless that dot begins the
/// component.
pub open spec fn ext_of(s: Seq<u8>) -> Option<Seq<u8>> {
    let sl = last_index_of(s, 47, s.len() as int);
    let dot = last_index_of(s, 46, s.len() as int);
    if dot > sl + 1 {
        Some(s.subrange(dot + 1, s.len() as int))
    } else {
        None
    }
}

/// Document extensions.
pub open spec fn is_doc_ext(e: Seq<u8>) -> bool {
    ||| e == "pdf".spec_bytes()
    ||| e == "doc".spec_bytes()
    ||| e == "docx".spec_bytes()
    ||| e == "txt".spec_bytes()
    ||| e == "rtf".spec_bytes()
    ||| e == "odt".spec_bytes()
}

/// Image extensions (including camera raw formats).
pub open spec fn is_image_ext(e: Seq<u8>) -> bool {
    ||| e == "jpg".spec_bytes()
    ||| e == "jpeg".spec_bytes()
    ||| e == "png".spec_bytes()
    ||| e == "gif".spec_bytes()
    ||| e == "bmp".spec_bytes()
    ||| e == "svg".spec_bytes()
    ||| e == "webp".spec_bytes()
    ||| e == "ico".spec_bytes()
    ||| e == "heic".spec_bytes()
    ||| e == "heif".spec_bytes()
    ||| e == "raw".spec_bytes()
    ||| e == "cr2".spec_bytes()
    ||| e == "nef".spec_bytes()
    ||| e == "dng".spec_bytes()
    ||| e == "tiff".spec_bytes()
    ||| e == "tif".spec_bytes()
}

/// Extensions of photo-library bookkeeping files, treated as images
/// when the path lies inside a photo library.
pub open spec fn is_photos_data_ext(e: Seq<u8>) -> bool {
    ||| e == "photos".spec_bytes()
    ||| e == "photoslibrary".spec_bytes()
    ||| e == "db".spec_bytes()
    ||| e == "sqlite".spec_bytes()
    ||| e == "sqlite-shm".spec_bytes()
    ||| e == "sqlite-wal".spec_bytes()
    ||| e == "plist".spec_bytes()
}

/// Video extensions.
pub open spec fn is_video_ext(e: Seq<u8>) -> bool {
    ||| e == "mp4".spec_bytes()
    ||| e == "avi".spec_bytes()
    ||| e == "mov".spec_bytes()
    ||| e == "mkv".spec_bytes()
    ||| e == "flv".spec_bytes()
    ||| e == "wmv".spec_bytes()
    ||| e == "webm".spec_bytes()
    ||| e == "m4v".spec_bytes()
}

/// Audio extensions.
pub open spec fn is_audio_ext(e: Seq<u8>) -> bool {
    ||| e == "mp3".spec_bytes()
    ||| e == "wav".spec_bytes()
    ||| e == "flac".spec_bytes()
    ||| e == "aac".spec_bytes()
    ||| e == "ogg".spec_bytes()
    ||| e == "m4a".spec_bytes()
    ||| e == "wma".spec_bytes()
}

/// Archive extensions.
pub open spec fn is_archive_ext(e: Seq<u8>) -> bool {
    ||| e == "zip".spec_bytes()
    ||| e == "tar".spec_bytes()
    ||| e == "gz".spec_bytes()
    ||| e == "rar".spec_bytes()
    ||| e == "7z".spec_bytes()
    ||| e == "bz2".spec_bytes()
    ||| e == "xz".spec_bytes()
}

/// Executable and shared-library extensions.
pub open spec fn is_executable_ext(e: Seq<u8>) -> bool {
    ||| e == "exe".spec_bytes()
    ||| e == "app".spec_bytes()
    ||| e == "bin".spec_bytes()
    ||| e == "dll".spec_bytes()
    ||| e == "so".spec_bytes()
    ||| e == "dylib".spec_bytes()
}

/// Source-code extensions.
pub open spec fn is_code_ext(e: Seq<u8>) -> bool {
    ||| e == "rs".spec_bytes()
    ||| e == "ts".spec_bytes()
    ||| e == "tsx".spec_bytes()
    ||| e == "js".spec_bytes()
    ||| e == "jsx".spec_bytes()
    ||| e == "py".spec_bytes()
    ||| e == "java".spec_bytes()
    ||| e == "c".spec_bytes()
    ||| e == "cpp".spec_bytes()
    ||| e == "h".spec_bytes()
    ||| e == "hpp".spec_bytes()
    ||| e == "go".spec_bytes()
    ||| e == "rb".spec_bytes()
    ||| e == "php".spec_bytes()
    ||| e == "swift".spec_bytes()
    ||| e == "kt".spec_bytes()
    ||| e == "cs".spec_bytes()
}

/// System-file extensions.
pub open spec fn is_system_ext(e: Seq<u8>) -> bool {
    ||| e == "sys".spec_bytes()
    ||| e == "ini".spec_bytes()
    ||| e == "cfg".spec_bytes()
    ||| e == "conf".spec_bytes()
    ||| e == "log".spec_bytes()
}

/// The path lies inside a photo library.
pub open spec fn in_photos_library(s: Seq<u8>) -> bool {
    ||| has_sub(lower_seq(s), ".photoslibrary".spec_bytes())
    ||| has_sub(lower_seq(s), "photo booth".spec_bytes())
}

/// Category of a lower-cased extension, in photo-library context or
/// not.
pub open spec fn classify_ext(e: Seq<u8>, photos: bool) -> FileType {
    if is_doc_ext(e) {
        FileType::Document
    } else if is_image_ext(e) {
        FileType::Image
    } else if photos && is_photos_data_ext(e) {
        FileType::Image
    } else if is_video_ext(e) {
        FileType::Video
    } else if is_audio_ext(e) {
        FileType::Audio
    } else if is_archive_ext(e) {
        FileType::Archive
    } else if is_executable_ext(e) {
        FileType::Executable
    } else if is_code_ext(e) {
        FileType::Code
    } else if is_system_ext(e) {
        FileType::SystemFile
    } else {
        FileType::Other
    }
}

/// Category of a path (given as its UTF-8 bytes): the extension is
/// compared case-insensitively against the known extension lists.
pub open spec fn classify_path(s: Seq<u8>) -> FileType {
    match ext_of(s) {
        Some(e) => classify_ext(lower_seq(e), in_photos_library(s)),
        None => FileType::Other,
    }
}

/// Total size of the non-directory nodes of category `c` in the tree
/// (the tree itself included if it is such a node).
pub open spec fn cat_size(t: FileNode, c: FileType) -> int
    decreases t,
{
    (if !t.is_directory && t.file_type == c {
        t.size as int
    } else {
        0
    }) + cat_size_seq(t.children@, c)
}

/// Sum of `cat_size` over a sequence of sibling nodes.
pub open spec fn cat_size_seq(s: Seq<FileNode>, c: FileType) -> int
    decreases s,
{
    if s.len() == 0 {
        0
    } else {
        cat_size(s[0], c) + cat_size_seq(s.subrange(1, s.len() as int), c)
    }
}

/// Number of non-directory nodes of category `c` in the tree.
pub open spec fn cat_count(t: FileNode, c: FileType) -> int
    decreases t,
{
    (if !t.is_directory && t.file_type == c {
        1int
    } else {
        0
    }) + cat_count_seq(t.children@, c)
}

/// Sum of `cat_count` over a sequence of sibling nodes.
pub open spec fn cat_count_seq(s: Seq<FileNode>, c: FileType) -> int
    decreases s,
{
    if s.len() == 0 {
        0
    } else {
        cat_count(s[0], c) + cat_count_seq(s.subrange(1, s.len() as int), c)
    }
}

/// Category sums are non-negative.
proof fn lemma_cat_nonneg(t: FileNode, c: FileType)
    ensures
        cat_size(t, c) >= 0,
        cat_count(t, c) >= 0,
    decreases t,
{
    lemma_cat_seq_nonneg(t.children@, c);
}

/// Category sums over siblings are non-negative.
proof fn lemma_cat_seq_nonneg(s: Seq<FileNode>, c: FileType)
    ensures
        cat_size_seq(s, c) >= 0,
        cat_count_seq(s, c) >= 0,
    decreases s,
{
    if s.len() > 0 {
        lemma_cat_nonneg(s[0], c);
        lemma_cat_seq_nonneg(s.subrange(1, s.len() as int), c);
    }
}

/// Splits the category sums of a suffix at its first element.
proof fn lemma_cat_seq_first(s: Seq<FileNode>, i: int, c: FileType)
    requires
        0 <= i < s.len(),
    ensures
        cat_size_seq(s.subrange(i, s.len() as int), c) == cat_size(s[i], c) + cat_size_seq(
            s.subrange(i + 1, s.len() as int),
            c,
        ),
        cat_count_seq(s.subrange(i, s.len() as int), c) == cat_count(s[i], c) + cat_count_seq(
            s.subrange(i + 1, s.len() as int),
            c,
        ),
{
    let suffix = s.subrange(i, s.len() as int);
    assert(suffix[0] == s[i]);
    assert(suffix.subrange(1, suffix.len() as int) =~= s.subrange(i + 1, s.len() as int));
}

/// Extends the category sums of a prefix by one element.
proof fn lemma_cat_seq_snoc(s: Seq<FileNode>, i: int, c: FileType)
    requires
        0 <= i < s.len(),
    ensures
        cat_size_seq(s.subrange(0, i + 1), c) == cat_size_seq(s.subrange(0, i), c) + cat_size(
            s[i],
            c,
        ),
        cat_count_seq(s.subrange(0, i + 1), c) == cat_count_seq(s.subrange(0, i), c) + cat_count(
            s[i],
            c,
        ),
    decreases i,
{
    if i == 0 {
        assert(s.subrange(0, 1)[0] == s[0]);
        assert(s.subrange(0, 1).subrange(1, 1) =~= Seq::<FileNode>::empty());
        assert(s.subrange(0, 0) =~= Seq::<FileNode>::empty());
    } else {
        let rest = s.subrange(1, s.len() as int);
        assert(s.subrange(0, i + 1)[0] == s[0]);
        assert(s.subrange(0, i)[0] == s[0]);
        assert(s.subrange(0, i + 1).subrange(1, i + 1) =~= rest.subrange(0, i));
        assert(s.subrange(0, i).subrange(1, i) =~= rest.subrange(0, i - 1));
        lemma_cat_seq_snoc(rest, i - 1, c);
        assert(rest[i - 1] == s[i]);
    }
}

/// Total size contribution of category `c` in a statistics list.
pub open spec fn stats_size(s: Seq<CategoryStats>, c: FileType) -> int
    decreases s,
{
    if s.len() == 0 {
        0
    } else {
        (if s[0].category == c {
            s[0].total_size as int
        } else {
            0
        }) + stats_size(s.subrange(1, s.len() as int), c)
    }
}

/// File-count contribution of category `c` in a statistics list.
pub open spec fn stats_count(s: Seq<CategoryStats>, c: FileType) -> int
    decreases s,
{
    if s.len() == 0 {
        0
    } else {
        (if s[0].category == c {
            s[0].file_count as int
        } else {
            0
        }) + stats_count(s.subrange(1, s.len() as int), c)
    }
}

/// No two entries of a statistics list share a category.
pub open spec fn stats_unique(s: Seq<CategoryStats>) -> bool {
    forall|i: int, j: int|
        #![trigger s[i].category, s[j].category]
        0 <= i < j < s.len() ==> s[i].category != s[j].category
}

/// Every entry of a statistics list counts at least one file: a
/// category occurs in the list only if some file of that category was
/// seen.
pub open spec fn stats_positive(s: Seq<CategoryStats>) -> bool {
    forall|i: int| 0 <= i < s.len() ==> #[trigger] s[i].file_count >= 1
}

/// Appending an entry adds exactly its contribution.
proof fn lemma_stats_push(s: Seq<CategoryStats>, e: CategoryStats, c: FileType)
    ensures
        stats_size(s.push(e), c) == stats_size(s, c) + if e.category == c {
            e.total_size as int
        } else {
            0
        },
        stats_count(s.push(e), c) == stats_count(s, c) + if e.category == c {
            e.file_count as int
        } else {
            0
        },
    decreases s,
{
    let t = s.push(e);
    if s.len() == 0 {
        assert(t[0] == e);
        assert(t.subrange(1, t.len() as int) =~= Seq::<CategoryStats>::empty());
        assert(stats_size(t.subrange(1, t.len() as int), c) == 0);
        assert(stats_count(t.subrange(1, t.len() as int), c) == 0);
    } else {
        assert(t[0] == s[0]);
        assert(t.subrange(1, t.len() as int) =~= s.subrange(1, s.len() as int).push(e));
        lemma_stats_push(s.subrange(1, s.len() as int), e, c);
    }
}

/// Replacing an entry swaps its contribution.
proof fn lemma_stats_update(s: Seq<CategoryStats>, i: int, e: CategoryStats, c: FileType)
    requires
        0 <= i < s.len(),
    ensures
        stats_size(s.update(i, e), c) == stats_size(s, c) - (if s[i].category == c {
            s[i].total_size as int
        } else {
            0
        }) + (if e.category == c {
            e.total_size as int
        } else {
            0
        }),
        stats_count(s.update(i, e), c) == stats_count(s, c) - (if s[i].category == c {
            s[i].file_count as int
        } else {
            0
        }) + (if e.category == c {
            e.file_count as int
        } else {
            0
        }),
    decreases s,
{
    let t = s.update(i, e);
    if i == 0 {
        assert(t[0] == e);
        assert(t.subrange(1, t.len() as int) =~= s.subrange(1, s.len() as int));
        assert(stats_size(t.subrange(1, t.len() as int), c) == stats_size(
            s.subrange(1, s.len() as int),
            c,
        ));
        assert(stats_count(t.subrange(1, t.len() as int), c) == stats_count(
            s.subrange(1, s.len() as int),
            c,
        ));
    } else {
        assert(t[0] == s[0]);
        assert(t.subrange(1, t.len() as int) =~= s.subrange(1, s.len() as int).update(i - 1, e));
        lemma_stats_update(s.subrange(1, s.len() as int), i - 1, e, c);
        assert(s.subrange(1, s.len() as int)[i - 1] == s[i]);
    }
}

/// A list without entries for `c` contributes nothing to `c`.
proof fn lemma_stats_absent(s: Seq<CategoryStats>, c: FileType)
    requires
        forall|k: int| 0 <= k < s.len() ==> #[trigger] s[k].category != c,
    ensures
        stats_size(s, c) == 0,
        stats_count(s, c) == 0,
    decreases s,
{
    if s.len() > 0 {
        let rest = s.subrange(1, s.len() as int);
        assert forall|k: int| 0 <= k < rest.len() implies #[trigger] rest[k].category != c by {
            assert(rest[k] == s[k + 1]);
        }
        lemma_stats_absent(rest, c);
    }
}

/// In a list with unique categories, the contribution of `c` is
/// exactly the one entry carrying it.
proof fn lemma_stats_entry(s: Seq<CategoryStats>, i: int, c: FileType)
    requires
        stats_unique(s),
        0 <= i < s.len(),
        s[i].category == c,
    ensures
        stats_size(s, c) == s[i].total_size as int,
        stats_count(s, c) == s[i].file_count as int,
    decreases s,
{
    let rest = s.subrange(1, s.len() as int);
    if i == 0 {
        assert forall|k: int| 0 <= k < rest.len() implies #[trigger] rest[k].category != c by {
            assert(rest[k] == s[k + 1]);
            assert(s[0].category != s[k + 1].category);
        }
        lemma_stats_absent(rest, c);
    } else {
        assert(s[0].category != s[i].category);
        assert forall|a: int, b: int|
            #![trigger rest[a].category, rest[b].category]
            0 <= a < b < rest.len() implies rest[a].category != rest[b].category by {
            assert(rest[a] == s[a + 1]);
            assert(rest[b] == s[b + 1]);
            assert(s[a + 1].category != s[b + 1].category);
        }
        assert(rest[i - 1] == s[i]);
        lemma_stats_entry(rest, i - 1, c);
    }
}

/// Adds one file of category `c` and size `size` into the statistics
/// list, keeping one entry per category.
#[verifier::rlimit(50)]
fn record_file_stat(stats_map: &mut Vec<CategoryStats>, c: FileType, size: u64)
    requires
        stats_unique(old(stats_map)@),
        stats_positive(old(stats_map)@),
        stats_size(old(stats_map)@, c) + size <= u64::MAX,
        stats_count(old(stats_map)@, c) + 1 <= u64::MAX,
    ensures
        stats_unique(final(stats_map)@),
        stats_positive(final(stats_map)@),
        forall|c2: FileType|
            #![trigger stats_size(final(stats_map)@, c2)]
            #![trigger stats_count(final(stats_map)@, c2)]
            stats_size(final(stats_map)@, c2) == stats_size(old(stats_map)@, c2) + (if c2 == c {
                size as int
            } else {
                0
            }) && stats_count(final(stats_map)@, c2) == stats_count(old(stats_map)@, c2) + (
            if c2 == c {
                1int
            } else {
                0
            }),
{
    let ghost pre = stats_map@;
    let mut found: Option<usize> = None;
    let mut i: usize = 0;
    while i < stats_map.len()
        invariant
            i <= stats_map@.len(),
            stats_map@ == pre,
            match found {
                Some(x) => x < i && stats_map@[x as int].category == c,
                None => forall|k: int| 0 <= k < i ==> #[trigger] stats_map@[k].category != c,
            },
        decreases stats_map@.len() - i,
    {
        if found.is_none() && stats_map[i].category == c {
            found = Some(i);
        }
        i = i + 1;
    }
    match found {
        Some(x) => {
            let e = stats_map[x];
            proof {
                lemma_stats_entry(pre, x as int, c);
            }
            let updated = CategoryStats {
                category: e.category,
                total_size: e.total_size + size,
                file_count: e.file_count + 1,
            };
            stats_map.set(x, updated);
            proof {
                assert(stats_map@ == pre.update(x as int, updated));
                assert forall|c2: FileType| #[trigger] stats_size(stats_map@, c2) == stats_size(
                    pre,
                    c2,
                ) + (if c2 == c {
                    size as int
                } else {
                    0
                }) by {
                    lemma_stats_update(pre, x as int, updated, c2);
                    assert(stats_size(pre.update(x as int, updated), c2) == stats_size(pre, c2) - (
                    if pre[x as int].category == c2 {
                        pre[x as int].total_size as int
                    } else {
                        0
                    }) + (if updated.category == c2 {
                        updated.total_size as int
                    } else {
                        0
                    }));
                }
                assert forall|c2: FileType| #[trigger] stats_count(stats_map@, c2) == stats_count(
                    pre,
                    c2,
                ) + (if c2 == c {
                    1int
                } else {
                    0
                }) by {
                    lemma_stats_update(pre, x as int, updated, c2);
                }
                assert forall|a: int, b: int|
                    #![trigger stats_map@[a].category, stats_map@[b].category]
                    0 <= a < b < stats_map@.len() implies stats_map@[a].category
                    != stats_map@[b].category by {
                    assert(pre[a].category != pre[b].category);
                }
            }
        },
        None => {
            proof {
                lemma_stats_absent(pre, c);
            }
            let entry = CategoryStats { category: c, total_size: size, file_count: 1 };
            stats_map.push(entry);
            proof {
                assert(stats_map@ == pre.push(entry));
                assert forall|c2: FileType| #[trigger] stats_size(stats_map@, c2) == stats_size(
                    pre,
                    c2,
                ) + (if c2 == c {
                    size as int
                } else {
                    0
                }) by {
                    lemma_stats_push(pre, entry, c2);
                }
                assert forall|c2: FileType| #[trigger] stats_count(stats_map@, c2) == stats_count(
                    pre,
                    c2,
                ) + (if c2 == c {
                    1int
                } else {
                    0
                }) by {
                    lemma_stats_push(pre, entry, c2);
                }
                assert forall|a: int, b: int|
                    #![trigger stats_map@[a].category, stats_map@[b].category]
                    0 <= a < b < stats_map@.len() implies stats_map@[a].category
                    != stats_map@[b].category by {
                    if b < pre.len() {
                        assert(pre[a].category != pre[b].category);
                    } else {
                        assert(stats_map@[b] == entry);
                        assert(pre[a].category != c);
                    }
                }
            }
        },
    }
}

/// Collects category statistics of `node` into `stats_map`.
pub fn collect_stats(node: &FileNode, stats_map: &mut Vec<CategoryStats>)
    requires
        stats_unique(old(stats_map)@),
        stats_positive(old(stats_map)@),
        forall|c: FileType|
            #![trigger cat_size(*node, c)]
            #![trigger cat_count(*node, c)]
            stats_size(old(stats_map)@, c) + cat_size(*node, c) <= u64::MAX && stats_count(
                old(stats_map)@,
                c,
            ) + cat_count(*node, c) <= u64::MAX,
    ensures
        stats_unique(final(stats_map)@),
        stats_positive(final(stats_map)@),
        forall|c: FileType|
            #![trigger cat_size(*node, c)]
            #![trigger cat_count(*node, c)]
            stats_size(final(stats_map)@, c) == stats_size(old(stats_map)@, c) + cat_size(*node, c)
                && stats_count(final(stats_map)@, c) == stats_count(old(stats_map)@, c)
                + cat_count(*node, c),
    decreases *node,
{
    let ghost orig = stats_map@;

    if !node.is_directory {
        proof {
            lemma_cat_nonneg(*node, node.file_type);
            lemma_cat_seq_nonneg(node.children@, node.file_type);
            assert(cat_size(*node, node.file_type) >= node.size);
            assert(cat_count(*node, node.file_type) >= 1);
            assert(stats_size(orig, node.file_type) + node.size <= u64::MAX);
            assert(stats_count(orig, node.file_type) + 1 <= u64::MAX);
        }
        record_file_stat(stats_map, node.file_type, node.size);
    }

    proof {
        assert forall|c: FileType|
            #![trigger stats_size(stats_map@, c)]
            #![trigger stats_count(stats_map@, c)]
            stats_size(stats_map@, c) == stats_size(orig, c) + (if !node.is_directory
                && node.file_type == c {
                node.size as int
            } else {
                0
            }) && stats_count(stats_map@, c) == stats_count(orig, c) + (if !node.is_directory
                && node.file_type == c {
                1int
            } else {
                0
            }) by {}
        assert forall|c: FileType| #[trigger] cat_size_seq(node.children@.subrange(0, 0), c) == 0
            && #[trigger] cat_count_seq(node.children@.subrange(0, 0), c) == 0 by {
            assert(node.children@.subrange(0, 0) =~= Seq::<FileNode>::empty());
        }
    }
    let ghost base = stats_map@;

    let mut k: usize = 0;
    while k < node.children.len()
        invariant
            k <= node.children@.len(),
            stats_unique(stats_map@),
            stats_positive(stats_map@),
            forall|c: FileType|
                #![trigger cat_size(*node, c)]
                #![trigger cat_count(*node, c)]
                stats_size(orig, c) + cat_size(*node, c) <= u64::MAX && stats_count(orig, c)
                    + cat_count(*node, c) <= u64::MAX,
            forall|c: FileType|
                #![trigger stats_size(stats_map@, c)]
                #![trigger stats_count(stats_map@, c)]
                stats_size(stats_map@, c) == stats_size(base, c) + cat_size_seq(
                    node.children@.subrange(0, k as int),
                    c,
                ) && stats_count(stats_map@, c) == stats_count(base, c) + cat_count_seq(
                    node.children@.subrange(0, k as int),
                    c,
                ),
            forall|c: FileType|
                #![trigger stats_size(base, c)]
                #![trigger stats_count(base, c)]
                stats_size(base, c) == stats_size(orig, c) + (if !node.is_directory
                    && node.file_type == c {
                    node.size as int
                } else {
                    0
                }) && stats_count(base, c) == stats_count(orig, c) + (if !node.is_directory
                    && node.file_type == c {
                    1int
                } else {
                    0
                }),
        decreases node.children@.len() - k,
    {
        proof {
            assert forall|c: FileType|
                #![trigger cat_size(node.children@[k as int], c)]
                #![trigger cat_count(node.children@[k as int], c)]
                stats_size(stats_map@, c) + cat_size(node.children@[k as int], c) <= u64::MAX
                    && stats_count(stats_map@, c) + cat_count(node.children@[k as int], c)
                    <= u64::MAX by {
                assert(stats_size(orig, c) + cat_size(*node, c) <= u64::MAX && stats_count(orig, c)
                    + cat_count(*node, c) <= u64::MAX);
                assert(stats_size(stats_map@, c) == stats_size(base, c) + cat_size_seq(
                    node.children@.subrange(0, k as int),
                    c,
                ) && stats_count(stats_map@, c) == stats_count(base, c) + cat_count_seq(
                    node.children@.subrange(0, k as int),
                    c,
                ));
                lemma_cat_seq_first(node.children@, k as int, c);
                lemma_cat_seq_nonneg(
                    node.children@.subrange(k as int + 1, node.children@.len() as int),
                    c,
                );
                lemma_cat_seq_snoc_sums(node.children@, k as int, c);
                lemma_cat_seq_nonneg(node.children@.subrange(0, k as int), c);
            }
        }
        collect_stats(&node.children[k], stats_map);
        proof {
            assert forall|c: FileType|
                #![trigger stats_size(stats_map@, c)]
                #![trigger stats_count(stats_map@, c)]
                stats_size(stats_map@, c) == stats_size(base, c) + cat_size_seq(
                    node.children@.subrange(0, k as int + 1),
                    c,
                ) && stats_count(stats_map@, c) == stats_count(base, c) + cat_count_seq(
                    node.children@.subrange(0, k as int + 1),
                    c,
                ) by {
                assert(cat_size(node.children@[k as int], c) == cat_size(node.children@[k as int], c));
                lemma_cat_seq_snoc(node.children@, k as int, c);
            }
        }
        k = k + 1;
    }
    proof {
        assert(node.children@.subrange(0, node.children@.len() as int) =~= node.children@);
        assert forall|c: FileType|
            #![trigger cat_size(*node, c)]
            #![trigger cat_count(*node, c)]
            stats_size(stats_map@, c) == stats_size(orig, c) + cat_size(*node, c) && stats_count(
                stats_map@,
                c,
            ) == stats_count(orig, c) + cat_count(*node, c) by {
            assert(stats_size(stats_map@, c) == stats_size(base, c) + cat_size_seq(
                node.children@.subrange(0, node.children@.len() as int),
                c,
            ) && stats_count(stats_map@, c) == stats_count(base, c) + cat_count_seq(
                node.children@.subrange(0, node.children@.len() as int),
                c,
            ));
            assert(stats_size(base, c) == stats_size(base, c));
        }
    }
}

/// The sum over a whole sequence splits at any point into prefix and
/// suffix sums.
proof fn lemma_cat_seq_snoc_sums(s: Seq<FileNode>, i: int, c: FileType)
    requires
        0 <= i <= s.len(),
    ensures
        cat_size_seq(s, c) == cat_size_seq(s.subrange(0, i), c) + cat_size_seq(
            s.subrange(i, s.len() as int),
            c,
        ),
        cat_count_seq(s, c) == cat_count_seq(s.subrange(0, i), c) + cat_count_seq(
            s.subrange(i, s.len() as int),
            c,
        ),
    decreases i,
{
    if i == 0 {
        assert(s.subrange(0, 0) =~= Seq::<FileNode>::empty());
        assert(s.subrange(0, s.len() as int) =~= s);
    } else {
        lemma_cat_seq_snoc_sums(s, i - 1, c);
        lemma_cat_seq_snoc(s, i - 1, c);
        lemma_cat_seq_first(s, i - 1, c);
    }
}

/// Aggregates file statistics by category from a file tree: for every
/// category the reported totals are exactly the sums over the tree's
/// non-directory nodes, with one entry per occurring category.
pub fn get_category_stats(root: &FileNode) -> (stats: Vec<CategoryStats>)
    requires
        forall|c: FileType|
            #![trigger cat_size(*root, c)]
            cat_size(*root, c) <= u64::MAX && cat_count(*root, c) <= u64::MAX,
    ensures
        stats_unique(stats@),
        stats_positive(stats@),
        forall|c: FileType|
            #![trigger cat_size(*root, c)]
            stats_size(stats@, c) == cat_size(*root, c) && stats_count(stats@, c) == cat_count(
                *root,
                c,
            ),
{
    let mut stats_map: Vec<CategoryStats> = Vec::new();
    collect_stats(root, &mut stats_map);
    stats_map
}

/// Classifies a file based on its extension.
pub fn classify_file(path: &str) -> (t: FileType)
    ensures
        t == classify_path(path.spec_bytes()),
{
    let bytes = path.as_bytes();
    let lowered = lower_bytes(bytes);
    let photos = contains_sub(lowered.as_slice(), ".photoslibrary".as_bytes()) || contains_sub(
        lowered.as_slice(),
        "photo booth".as_bytes(),
    );

    let blen = bytes.len();
    let sl = find_last(bytes, 47);
    let dot = find_last(bytes, 46);
    proof {
        assert(bytes@.len() == blen);
        crate::text::lemma_last_index_of_bounds(bytes@, 47, bytes@.len() as int);
        crate::text::lemma_last_index_of_bounds(bytes@, 46, bytes@.len() as int);
    }
    let (has_ext, start) = match (dot, sl) {
        (Some(d), Some(s)) => (d > s + 1, d + 1),
        (Some(d), None) => (d > 0, d + 1),
        (None, _) => (false, 0),
    };
    if !has_ext {
        return FileType::Other;
    }
    let e = vstd::slice::slice_subrange(lowered.as_slice(), start, lowered.len());
    proof {
        assert(e@ =~= lower_seq(ext_of(path.spec_bytes())->0));
    }
    classify_ext_exec(e, photos)
}

/// Decides the category of a lower-cased extension.
fn classify_ext_exec(e: &[u8], photos: bool) -> (t: FileType)
    ensures
        t == classify_ext(e@, photos),
{
    if bytes_eq(e, "pdf".as_bytes()) || bytes_eq(e, "doc".as_bytes()) || bytes_eq(
        e,
        "docx".as_bytes(),
    ) || bytes_eq(e, "txt".as_bytes()) || bytes_eq(e, "rtf".as_bytes()) || bytes_eq(
        e,
        "odt".as_bytes(),
    ) {
        FileType::Document
    } else if bytes_eq(e, "jpg".as_bytes()) || bytes_eq(e, "jpeg".as_bytes()) || bytes_eq(
        e,
        "png".as_bytes(),
    ) || bytes_eq(e, "gif".as_bytes()) || bytes_eq(e, "bmp".as_bytes()) || bytes_eq(
        e,
        "svg".as_bytes(),
    ) || bytes_eq(e, "webp".as_bytes()) || bytes_eq(e, "ico".as_bytes()) || bytes_eq(
        e,
        "heic".as_bytes(),
    ) || bytes_eq(e, "heif".as_bytes()) || bytes_eq(e, "raw".as_bytes()) || bytes_eq(
        e,
        "cr2".as_bytes(),
    ) || bytes_eq(e, "nef".as_bytes()) || bytes_eq(e, "dng".as_bytes()) || bytes_eq(
        e,
        "tiff".as_bytes(),
    ) || bytes_eq(e, "tif".as_bytes()) {
        FileType::Image
    } else if photos && (bytes_eq(e, "photos".as_bytes()) || bytes_eq(
        e,
        "photoslibrary".as_bytes(),
    ) || bytes_eq(e, "db".as_bytes()) || bytes_eq(e, "sqlite".as_bytes()) || bytes_eq(
        e,
        "sqlite-shm".as_bytes(),
    ) || bytes_eq(e, "sqlite-wal".as_bytes()) || bytes_eq(e, "plist".as_bytes())) {
        FileType::Image
    } else if bytes_eq(e, "mp4".as_bytes()) || bytes_eq(e, "avi".as_bytes()) || bytes_eq(
        e,
        "mov".as_bytes(),
    ) || bytes_eq(e, "mkv".as_bytes()) || bytes_eq(e, "flv".as_bytes()) || bytes_eq(
        e,
        "wmv".as_bytes(),
    ) || bytes_eq(e, "webm".as_bytes()) || bytes_eq(e, "m4v".as_bytes()) {
        FileType::Video
    } else if bytes_eq(e, "mp3".as_bytes()) || bytes_eq(e, "wav".as_bytes()) || bytes_eq(
        e,
        "flac".as_bytes(),
    ) || bytes_eq(e, "aac".as_bytes()) || bytes_eq(e, "ogg".as_bytes()) || bytes_eq(
        e,
        "m4a".as_bytes(),
    ) || bytes_eq(e, "wma".as_bytes()) {
        FileType::Audio
    } else if bytes_eq(e, "zip".as_bytes()) || bytes_eq(e, "tar".as_bytes()) || bytes_eq(
        e,
        "gz".as_bytes(),
    ) || bytes_eq(e, "rar".as_bytes()) || bytes_eq(e, "7z".as_bytes()) || bytes_eq(
        e,
        "bz2".as_bytes(),
    ) || bytes_eq(e, "xz".as_bytes()) {
        FileType::Archive
    } else if bytes_eq(e, "exe".as_bytes()) || bytes_eq(e, "app".as_bytes()) || bytes_eq(
        e,
        "bin".as_bytes(),
    ) || bytes_eq(e, "dll".as_bytes()) || bytes_eq(e, "so".as_bytes()) || bytes_eq(
        e,
        "dylib".as_bytes(),
    ) {
        FileType::Executable
    } else if bytes_eq(e, "rs".as_bytes()) || bytes_eq(e, "ts".as_bytes()) || bytes_eq(
        e,
        "tsx".as_bytes(),
    ) || bytes_eq(e, "js".as_bytes()) || bytes_eq(e, "jsx".as_bytes()) || bytes_eq(
        e,
        "py".as_bytes(),
    ) || bytes_eq(e, "java".as_bytes()) || bytes_eq(e, "c".as_bytes()) || bytes_eq(
        e,
        "cpp".as_bytes(),
    ) || bytes_eq(e, "h".as_bytes()) || bytes_eq(e, "hpp".as_bytes()) || bytes_eq(
        e,
        "go".as_bytes(),
    ) || bytes_eq(e, "rb".as_bytes()) || bytes_eq(e, "php".as_bytes()) || bytes_eq(
        e,
        "swift".as_bytes(),
    ) || bytes_eq(e, "kt".as_bytes()) || bytes_eq(e, "cs".as_bytes()) {
        FileType::Code
    } else if bytes_eq(e, "sys".as_bytes()) || bytes_eq(e, "ini".as_bytes()) || bytes_eq(
        e,
        "cfg".as_bytes(),
    ) || bytes_eq(e, "conf".as_bytes()) || bytes_eq(e, "log".as_bytes()) {
        FileType::SystemFile
    } else {
        FileType::Other
    }
}

} // verus!
