//! The texts that report a run: the images that could not be processed, and
//! the classes with the images sorted into them.

use vstd::prelude::*;
use vstd::string::*;
use crate::clustering::Table;

verus! {

/// The line that lists one image.
pub open spec fn path_line(path: Seq<char>) -> Seq<char> {
    "\t=> "@ + path + "\n"@
}

/// One line for each image, in order.
pub open spec fn path_lines(paths: Seq<Seq<char>>) -> Seq<char>
    decreases paths.len(),
{
    if paths.len() == 0 {
        Seq::empty()
    } else {
        path_lines(paths.drop_last()) + path_line(paths.last())
    }
}

/// The report on the images that could not be processed.
pub open spec fn missed_images_text(paths: Seq<Seq<char>>) -> Seq<char> {
    "\nThe following images failed to process:\n"@ + path_lines(paths)
}

/// The paths of the images that a class lists.
pub open spec fn member_paths(members: Seq<usize>, image_paths: Seq<Seq<char>>) -> Seq<Seq<char>> {
    Seq::new(members.len(), |j: int| image_paths[members[j] as int])
}

/// The report on one class: its name, its images, and an empty line.
pub open spec fn class_text(
    class_name: Seq<char>,
    members: Seq<usize>,
    image_paths: Seq<Seq<char>>,
) -> Seq<char> {
    class_name + ":\n"@ + path_lines(member_paths(members, image_paths)) + "\n"@
}

/// The report on the first `count` classes.
pub open spec fn classes_text(images: ClassifiedImages, count: nat) -> Seq<char>
    decreases count,
{
    if count == 0 {
        Seq::empty()
    } else {
        classes_text(images, (count - 1) as nat) + class_text(
            images.class_names[count - 1],
            images.table[count - 1],
            images.image_paths,
        )
    }
}

/// The images of a run that could not be processed, ready to be reported.
pub struct MissedImagesFormatter(Vec<String>);

impl View for MissedImagesFormatter {
    type V = Seq<Seq<char>>;

    closed spec fn view(&self) -> Seq<Seq<char>> {
        self.0.deep_view()
    }
}

impl MissedImagesFormatter {
    /// Writes out the report.
    pub fn to_string(&self) -> (s: String)
        ensures
            s@ == missed_images_text(self@),
    {
        let ghost paths = self.0.deep_view();
        let mut s = String::from_str("\nThe following images failed to process:\n");
        let mut i: usize = 0;
        while i < self.0.len()
            invariant
                i <= self.0.len(),
                paths == self.0.deep_view(),
                s@ == missed_images_text(paths.take(i as int)),
            decreases self.0.len() - i,
        {
            assert(paths.take(i + 1).drop_last() =~= paths.take(i as int));
            s.append("\t=> ");
            s.append(self.0[i].as_str());
            s.append("\n");
            i += 1;
        }
        assert(paths.take(i as int) =~= paths);
        s
    }
}

/// What a `ClassifiedImagesFormatter` holds.
pub ghost struct ClassifiedImages {
    pub table: Seq<Seq<usize>>,
    pub image_paths: Seq<Seq<char>>,
    pub class_names: Seq<Seq<char>>,
}

/// The classes of a run with their names and images, ready to be reported.
pub struct ClassifiedImagesFormatter {
    similarity_table: Table<usize>,
    image_paths: Vec<String>,
    class_names: Vec<String>,
}

impl View for ClassifiedImagesFormatter {
    type V = ClassifiedImages;

    closed spec fn view(&self) -> ClassifiedImages {
        ClassifiedImages {
            table: self.similarity_table.deep_view(),
            image_paths: self.image_paths.deep_view(),
            class_names: self.class_names.deep_view(),
        }
    }
}

impl ClassifiedImages {
    /// Whether every class has a name and every member an image.
    pub open spec fn well_formed(self) -> bool {
        &&& self.table.len() <= self.class_names.len()
        &&& forall|c: int, j: int|
            0 <= c < self.table.len() && 0 <= j < self.table[c].len() ==> #[trigger] self.table[c][j]
                < self.image_paths.len()
    }
}

impl ClassifiedImagesFormatter {
    /// Puts the table, the images and the class names together.
    pub fn new(similarity_table: Table<usize>, image_paths: Vec<String>, class_names: Vec<String>) -> (f:
        Self)
        ensures
            f@ == (ClassifiedImages {
                table: similarity_table.deep_view(),
                image_paths: image_paths.deep_view(),
                class_names: class_names.deep_view(),
            }),
    {
        Self { similarity_table, image_paths, class_names }
    }

    /// Writes out the report: class by class, the name and then the images.
    pub fn to_string(&self) -> (s: String)
        requires
            self@.well_formed(),
        ensures
            s@ == classes_text(self@, self@.table.len()),
    {
        let ghost images = self@;
        let mut s = String::new();
        let mut i: usize = 0;
        while i < self.similarity_table.len()
            invariant
                i <= self.similarity_table.len(),
                images == self@,
                images.well_formed(),
                s@ == classes_text(images, i as nat),
            decreases self.similarity_table.len() - i,
        {
            let row: &Vec<usize> = &self.similarity_table[i];
            let ghost members = images.table[i as int];
            let ghost before = s@ + images.class_names[i as int] + ":\n"@;
            s.append(self.class_names[i].as_str());
            s.append(":\n");
            let mut j: usize = 0;
            while j < row.len()
                invariant
                    j <= row.len(),
                    i < self.similarity_table.len(),
                    row@ == members,
                    members == images.table[i as int],
                    images == self@,
                    images.well_formed(),
                    s@ == before + path_lines(member_paths(members, images.image_paths).take(j as int)),
                decreases row.len() - j,
            {
                let ghost paths = member_paths(members, images.image_paths);
                assert(paths.take(j + 1).drop_last() =~= paths.take(j as int));
                s.append("\t=> ");
                s.append(self.image_paths[row[j]].as_str());
                s.append("\n");
                j += 1;
            }
            assert(member_paths(members, images.image_paths).take(j as int) =~= member_paths(
                members,
                images.image_paths,
            ));
            s.append("\n");
            i += 1;
        }
        s
    }
}

/// Readies the report on the images that could not be processed.
pub fn format_missed_images(missed_images: Vec<String>) -> (f: MissedImagesFormatter)
    ensures
        f@ == missed_images.deep_view(),
{
    MissedImagesFormatter(missed_images)
}

/// Readies the report on the classes and their images.
pub fn format_classified_images(
    similarity_table: Table<usize>,
    image_paths: Vec<String>,
    class_names: Vec<String>,
) -> (f: ClassifiedImagesFormatter)
    ensures
        f@ == (ClassifiedImages {
            table: similarity_table.deep_view(),
            image_paths: image_paths.deep_view(),
            class_names: class_names.deep_view(),
        }),
{
    ClassifiedImagesFormatter::new(similarity_table, image_paths, class_names)
}

} // verus!
