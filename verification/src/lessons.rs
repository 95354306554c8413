//! Per-lesson source packaging: which lesson folders exist, which shared
//! assets a lesson's C source actually mentions, what goes into each
//! lesson's downloadable archive, and which pair of source files the diff
//! panel of a lesson page compares.
use vstd::prelude::*;
use crate::files::natural_leq;
use crate::text::clone_strings;
use crate::text::contains_sub;
use crate::text::contains_sub_spec;
use crate::text::join_path;
use crate::text::str_eq;
use crate::text::views_of;
use natural_sort_rs::NaturalSort;

verus! {

/// The final path component: everything after the last separator.
pub open spec fn file_name_of(p: Seq<char>) -> Seq<char>
    decreases p.len(),
{
    if p.len() == 0 {
        p
    } else if p.last() == '/' {
        Seq::empty()
    } else {
        file_name_of(p.drop_last()).push(p.last())
    }
}

/// Extracts the final path component.
pub fn file_name_part(p: &str) -> (r: String)
    ensures
        r@ == file_name_of(p@),
{
    let n: usize = p.unicode_len();
    let mut i: usize = n;
    proof {
        assert(p@.subrange(0, n as int) =~= p@);
        assert(file_name_of(p@) + p@.subrange(n as int, n as int) =~= file_name_of(p@));
    }
    while i > 0 && p.get_char(i - 1) != '/'
        invariant
            i <= n,
            n == p@.len(),
            file_name_of(p@) == file_name_of(p@.subrange(0, i as int)) + p@.subrange(
                i as int,
                n as int,
            ),
        decreases i,
    {
        proof {
            let cur = p@.subrange(0, i as int);
            assert(cur.drop_last() =~= p@.subrange(0, i - 1));
            assert(cur.last() == p@[i - 1]);
            assert(file_name_of(p@.subrange(0, i - 1)).push(p@[i - 1]) + p@.subrange(
                i as int,
                n as int,
            ) =~= file_name_of(p@.subrange(0, i - 1)) + p@.subrange(i - 1, n as int));
        }
        i = i - 1;
    }
    proof {
        if i == 0 {
            assert(file_name_of(p@.subrange(0, 0)) =~= Seq::<char>::empty());
        } else {
            let cur = p@.subrange(0, i as int);
            assert(cur.last() == '/');
            assert(file_name_of(cur) =~= Seq::<char>::empty());
        }
        assert(file_name_of(p@) =~= p@.subrange(i as int, n as int));
    }
    let s = p.substring_char(i, n);
    String::from_str(s)
}

/// One lesson's code: its folder, its own files, and the shared assets it
/// needs.
#[derive(Debug)]
pub struct LessonCode {
    pub lesson_name: String,
    pub lesson_code_directory: String,
    pub code_files: Vec<String>,
    pub code_assets: Vec<String>,
}

/// The mathematical content of a [`LessonCode`].
pub struct LessonView {
    pub name: Seq<char>,
    pub dir: Seq<char>,
    pub files: Seq<Seq<char>>,
    pub assets: Seq<Seq<char>>,
}

impl View for LessonCode {
    type V = LessonView;

    open spec fn view(&self) -> LessonView {
        LessonView {
            name: self.lesson_name@,
            dir: self.lesson_code_directory@,
            files: views_of(self.code_files@),
            assets: views_of(self.code_assets@),
        }
    }
}

/// The views of a sequence of lessons.
pub open spec fn lesson_views(ls: Seq<LessonCode>) -> Seq<LessonView> {
    ls.map_values(|l: LessonCode| l@)
}

/// The shared assets whose file name the lesson's source mentions, in
/// order.
pub open spec fn assets_needed(assets: Seq<Seq<char>>, src: Seq<char>) -> Seq<Seq<char>>
    decreases assets.len(),
{
    if assets.len() == 0 {
        Seq::empty()
    } else {
        let rest = assets_needed(assets.drop_last(), src);
        if contains_sub_spec(src, file_name_of(assets.last())) {
            rest.push(assets.last())
        } else {
            rest
        }
    }
}

/// Keeps the assets whose file name occurs in the lesson's C source; a
/// lesson whose source cannot be read needs none.
pub fn get_code_assets_lesson_needs(assets: &Vec<String>, c_source: &Option<String>) -> (r: Vec<
    String,
>)
    ensures
        c_source is None ==> r@.len() == 0,
        c_source matches Some(src) ==> views_of(r@) == assets_needed(views_of(assets@), src@),
{
    match c_source {
        None => Vec::new(),
        Some(src) => {
            let ghost avs = views_of(assets@);
            let mut r: Vec<String> = Vec::new();
            let mut i: usize = 0;
            while i < assets.len()
                invariant
                    i <= assets@.len(),
                    avs == views_of(assets@),
                    avs.len() == assets@.len(),
                    views_of(r@) == assets_needed(avs.subrange(0, i as int), src@),
                decreases assets@.len() - i,
            {
                let name = file_name_part(assets[i].as_str());
                if contains_sub(src.as_str(), name.as_str()) {
                    r.push(assets[i].clone());
                }
                i = i + 1;
                proof {
                    let pre = avs.subrange(0, i - 1);
                    let now = avs.subrange(0, i as int);
                    assert(now.drop_last() =~= pre);
                    assert(now.last() == avs[i - 1]);
                    assert(avs[i - 1] == assets@[i - 1]@);
                    assert(views_of(r@) =~= assets_needed(now, src@));
                }
            }
            proof {
                assert(avs.subrange(0, avs.len() as int) =~= avs);
            }
            r
        },
    }
}

/// What discovery hands the lesson builder for one lesson folder: its
/// name, its C source when readable, and its files.
pub struct LessonInput {
    pub name: String,
    pub c_source: Option<String>,
    pub files: Vec<String>,
}

/// The mathematical content of a [`LessonInput`].
pub struct LessonInputView {
    pub name: Seq<char>,
    pub c_source: Option<Seq<char>>,
    pub files: Seq<Seq<char>>,
}

impl View for LessonInput {
    type V = LessonInputView;

    open spec fn view(&self) -> LessonInputView {
        LessonInputView {
            name: self.name@,
            c_source: match self.c_source {
                Some(s) => Some(s@),
                None => None,
            },
            files: views_of(self.files@),
        }
    }
}

/// The views of a sequence of lesson inputs.
pub open spec fn input_views(ls: Seq<LessonInput>) -> Seq<LessonInputView> {
    ls.map_values(|l: LessonInput| l@)
}

/// The lesson one input yields.
pub open spec fn lesson_of(
    source_dir: Seq<char>,
    assets: Seq<Seq<char>>,
    inp: LessonInputView,
) -> LessonView {
    LessonView {
        name: inp.name,
        dir: source_dir + seq!['/'] + inp.name,
        files: inp.files,
        assets: match inp.c_source {
            Some(src) => assets_needed(assets, src),
            None => Seq::empty(),
        },
    }
}

/// Relies on natural_sort_rs::NaturalSort::natural_sort_by_key: a stable
/// sort by the natural order of the lesson name, so the result holds the
/// same lessons, ordered by that comparison on their names.
#[verifier::external_body]
fn natural_sort_lessons(v: &mut Vec<LessonCode>)
    ensures
        final(v)@.len() == old(v)@.len(),
        lesson_views(final(v)@).to_multiset() == lesson_views(old(v)@).to_multiset(),
        forall|i: int, j: int|
            0 <= i < j < final(v)@.len() ==> natural_leq(
                (#[trigger] final(v)@[i])@.name,
                (#[trigger] final(v)@[j])@.name,
            ),
{
    v.natural_sort_by_key::<str, _, _>(|x| x.lesson_name.clone());
}

/// Builds every lesson's code listing from the discovered folders and the
/// shared assets, naturally ordered by lesson name.
pub fn get_specific_lesson_code(
    source_dir: &str,
    assets: &Vec<String>,
    inputs: &Vec<LessonInput>,
) -> (r: Vec<LessonCode>)
    ensures
        lesson_views(r@).to_multiset() == input_views(inputs@).map_values(
            |inp: LessonInputView| lesson_of(source_dir@, views_of(assets@), inp),
        ).to_multiset(),
        forall|i: int, j: int|
            0 <= i < j < r@.len() ==> natural_leq(
                (#[trigger] r@[i])@.name,
                (#[trigger] r@[j])@.name,
            ),
{
    let ghost ivs = input_views(inputs@);
    let ghost goal = ivs.map_values(
        |inp: LessonInputView| lesson_of(source_dir@, views_of(assets@), inp),
    );
    let mut lessons: Vec<LessonCode> = Vec::new();
    let mut i: usize = 0;
    while i < inputs.len()
        invariant
            i <= inputs@.len(),
            ivs == input_views(inputs@),
            ivs.len() == inputs@.len(),
            goal == ivs.map_values(
                |inp: LessonInputView| lesson_of(source_dir@, views_of(assets@), inp),
            ),
            lesson_views(lessons@) == goal.subrange(0, i as int),
        decreases inputs@.len() - i,
    {
        let inp: &LessonInput = &inputs[i];
        proof {
            assert(ivs[i as int] == inp@);
        }
        let code_assets = get_code_assets_lesson_needs(assets, &inp.c_source);
        let lesson = LessonCode {
            lesson_name: inp.name.clone(),
            lesson_code_directory: join_path(source_dir, inp.name.as_str()),
            code_files: clone_strings(&inp.files),
            code_assets,
        };
        proof {
            assert(lesson@ == lesson_of(source_dir@, views_of(assets@), inp@)) by {
                if inp@.c_source is None {
                    assert(views_of(lesson.code_assets@) =~= Seq::<Seq<char>>::empty());
                }
            }
        }
        let ghost pre = lessons@;
        lessons.push(lesson);
        i = i + 1;
        proof {
            assert(lesson_views(lessons@) =~= lesson_views(pre).push(lessons@.last()@));
            assert(lessons@.last()@ == goal[i - 1]);
            assert(lesson_views(lessons@) =~= goal.subrange(0, i as int));
        }
    }
    proof {
        assert(goal.subrange(0, goal.len() as int) =~= goal);
    }
    natural_sort_lessons(&mut lessons);
    lessons
}

/// Prefixes every shared build file with its directory name, yielding the
/// lesson-agnostic part of each archive.
pub fn get_agnostic_lesson_code(dir_name: &str, files: &Vec<String>) -> (r: Vec<String>)
    ensures
        views_of(r@) == views_of(files@).map_values(|f: Seq<char>| dir_name@ + seq!['/'] + f),
{
    let ghost goal = views_of(files@).map_values(|f: Seq<char>| dir_name@ + seq!['/'] + f);
    let mut r: Vec<String> = Vec::new();
    let mut i: usize = 0;
    while i < files.len()
        invariant
            i <= files@.len(),
            goal == views_of(files@).map_values(|f: Seq<char>| dir_name@ + seq!['/'] + f),
            goal.len() == files@.len(),
            views_of(r@) == goal.subrange(0, i as int),
        decreases files@.len() - i,
    {
        let ghost pre = r@;
        r.push(join_path(dir_name, files[i].as_str()));
        i = i + 1;
        proof {
            assert(views_of(r@) =~= views_of(pre).push(r@.last()@));
            assert(r@.last()@ == goal[i - 1]);
            assert(views_of(r@) =~= goal.subrange(0, i as int));
        }
    }
    proof {
        assert(goal.subrange(0, goal.len() as int) =~= goal);
    }
    r
}

/// One archive entry: where the file sits in the archive and where it is
/// read from.
#[derive(Debug, PartialEq, Eq)]
pub struct ZipEntry {
    pub archive_path: String,
    pub source_path: String,
}

/// The mathematical content of a [`ZipEntry`].
pub struct ZipEntryView {
    pub archive: Seq<char>,
    pub source: Seq<char>,
}

impl View for ZipEntry {
    type V = ZipEntryView;

    open spec fn view(&self) -> ZipEntryView {
        ZipEntryView { archive: self.archive_path@, source: self.source_path@ }
    }
}

/// The archive of one lesson: its file name and entries.
pub struct ZipPlan {
    pub zip_name: String,
    pub entries: Vec<ZipEntry>,
}

/// An entry sourced below `dir`, archived under its bare path.
pub open spec fn entry_under(dir: Seq<char>, f: Seq<char>) -> ZipEntryView {
    ZipEntryView { archive: f, source: dir + seq!['/'] + f }
}

/// The entries of a lesson archive: the needed assets and the shared build
/// files read from the code tree, then the lesson's own files read from
/// its folder.
pub open spec fn zip_entries_spec(
    code_dir: Seq<char>,
    lesson: LessonView,
    agnostic: Seq<Seq<char>>,
) -> Seq<ZipEntryView> {
    (lesson.assets + agnostic).map_values(|f: Seq<char>| entry_under(code_dir, f))
        + lesson.files.map_values(|f: Seq<char>| entry_under(lesson.dir, f))
}

/// Plans one lesson's archive: name it after the lesson and lay out every
/// entry with its source path, in the packaging order.
pub fn lesson_zip_plan(code_dir: &str, lesson: &LessonCode, agnostic: &Vec<String>) -> (r:
    ZipPlan)
    ensures
        r.zip_name@ == lesson.lesson_name@ + ".zip"@,
        r.entries@.map_values(|e: ZipEntry| e@) == zip_entries_spec(
            code_dir@,
            lesson@,
            views_of(agnostic@),
        ),
{
    let ghost shared = lesson@.assets + views_of(agnostic@);
    let ghost first = shared.map_values(|f: Seq<char>| entry_under(code_dir@, f));
    let ghost second = lesson@.files.map_values(
        |f: Seq<char>| entry_under(lesson.lesson_code_directory@, f),
    );
    let mut entries: Vec<ZipEntry> = Vec::new();
    let mut i: usize = 0;
    while i < lesson.code_assets.len()
        invariant
            i <= lesson.code_assets@.len(),
            shared == lesson@.assets + views_of(agnostic@),
            first == shared.map_values(|f: Seq<char>| entry_under(code_dir@, f)),
            shared.len() == lesson.code_assets@.len() + agnostic@.len(),
            entries@.map_values(|e: ZipEntry| e@) == first.subrange(0, i as int),
        decreases lesson.code_assets@.len() - i,
    {
        let f: &String = &lesson.code_assets[i];
        let ghost pre = entries@;
        entries.push(
            ZipEntry { archive_path: f.clone(), source_path: join_path(code_dir, f.as_str()) },
        );
        i = i + 1;
        proof {
            assert(shared[i - 1] == lesson.code_assets@[i - 1]@);
            assert(entries@.map_values(|e: ZipEntry| e@) =~= pre.map_values(
                |e: ZipEntry| e@,
            ).push(entries@.last()@));
            assert(entries@.last()@ == first[i - 1]);
            assert(entries@.map_values(|e: ZipEntry| e@) =~= first.subrange(0, i as int));
        }
    }
    let na: usize = lesson.code_assets.len();
    let mut j: usize = 0;
    while j < agnostic.len()
        invariant
            j <= agnostic@.len(),
            na == lesson.code_assets@.len(),
            shared == lesson@.assets + views_of(agnostic@),
            first == shared.map_values(|f: Seq<char>| entry_under(code_dir@, f)),
            shared.len() == na + agnostic@.len(),
            entries@.map_values(|e: ZipEntry| e@) == first.subrange(0, na + j),
        decreases agnostic@.len() - j,
    {
        let f: &String = &agnostic[j];
        let ghost pre = entries@;
        entries.push(
            ZipEntry { archive_path: f.clone(), source_path: join_path(code_dir, f.as_str()) },
        );
        j = j + 1;
        proof {
            assert(shared[na + j - 1] == agnostic@[j - 1]@);
            assert(entries@.map_values(|e: ZipEntry| e@) =~= pre.map_values(
                |e: ZipEntry| e@,
            ).push(entries@.last()@));
            assert(entries@.last()@ == first[na + j - 1]);
            assert(entries@.map_values(|e: ZipEntry| e@) =~= first.subrange(0, na + j));
        }
    }
    proof {
        assert(first.subrange(0, first.len() as int) =~= first);
    }
    let mut k: usize = 0;
    while k < lesson.code_files.len()
        invariant
            k <= lesson.code_files@.len(),
            first == shared.map_values(|f: Seq<char>| entry_under(code_dir@, f)),
            second == lesson@.files.map_values(
                |f: Seq<char>| entry_under(lesson.lesson_code_directory@, f),
            ),
            second.len() == lesson.code_files@.len(),
            entries@.map_values(|e: ZipEntry| e@) == first + second.subrange(0, k as int),
        decreases lesson.code_files@.len() - k,
    {
        let f: &String = &lesson.code_files[k];
        let ghost pre = entries@;
        entries.push(
            ZipEntry {
                archive_path: f.clone(),
                source_path: join_path(lesson.lesson_code_directory.as_str(), f.as_str()),
            },
        );
        k = k + 1;
        proof {
            assert(lesson@.files[k - 1] == lesson.code_files@[k - 1]@);
            assert(entries@.map_values(|e: ZipEntry| e@) =~= pre.map_values(
                |e: ZipEntry| e@,
            ).push(entries@.last()@));
            assert(entries@.last()@ == second[k - 1]);
            assert(entries@.map_values(|e: ZipEntry| e@) =~= first + second.subrange(
                0,
                k as int,
            ));
        }
    }
    proof {
        assert(second.subrange(0, second.len() as int) =~= second);
    }
    let mut zip_name: String = String::new();
    zip_name.append(lesson.lesson_name.as_str());
    zip_name.append(".zip");
    proof {
        assert(zip_name@ =~= lesson.lesson_name@ + ".zip"@);
    }
    ZipPlan { zip_name, entries }
}

/// The path of a lesson's C source below the code tree.
pub open spec fn c_source_path(code_dir: Seq<char>, stem: Seq<char>) -> Seq<char> {
    code_dir + seq!['/'] + stem + seq!['/'] + stem + ".c"@
}

/// Which two source files a lesson page's diff panel compares: the previous
/// lesson's C file against this one's, only when this page and the one
/// before it both use the lesson template.
pub open spec fn diff_sources_spec(
    code_dir: Seq<char>,
    stems: Seq<Seq<char>>,
    templates: Seq<Seq<char>>,
    i: int,
) -> Option<(Seq<char>, Seq<char>)> {
    if 0 < i < templates.len() && templates[i] == "lesson_template.html"@ && templates[i - 1]
        == "lesson_template.html"@ {
        Some((c_source_path(code_dir, stems[i - 1]), c_source_path(code_dir, stems[i])))
    } else {
        None
    }
}

/// Decides whether page `i` gets a diff panel and over which files.
pub fn lesson_diff_sources(
    code_dir: &str,
    stems: &Vec<String>,
    templates: &Vec<String>,
    i: usize,
) -> (r: Option<(String, String)>)
    requires
        stems@.len() == templates@.len(),
        i < templates@.len(),
    ensures
        (match diff_sources_spec(code_dir@, views_of(stems@), views_of(templates@), i as int) {
            Some(pair) => r matches Some(p) && p.0@ == pair.0 && p.1@ == pair.1,
            None => r is None,
        }),
{
    if i == 0 {
        return None;
    }
    let wanted = templates[i].as_str();
    if str_eq(wanted, "lesson_template.html") && str_eq(
        templates[i - 1].as_str(),
        "lesson_template.html",
    ) {
        let old_path = c_path_for(code_dir, stems[i - 1].as_str());
        let new_path = c_path_for(code_dir, stems[i].as_str());
        Some((old_path, new_path))
    } else {
        None
    }
}

/// Builds the C source path of one lesson stem.
fn c_path_for(code_dir: &str, stem: &str) -> (r: String)
    ensures
        r@ == c_source_path(code_dir@, stem@),
{
    let mut r: String = String::new();
    r.append(code_dir);
    r.append("/");
    r.append(stem);
    r.append("/");
    r.append(stem);
    r.append(".c");
    proof {
        reveal_strlit("/");
        assert(r@ =~= c_source_path(code_dir@, stem@));
    }
    r
}

} // verus!
