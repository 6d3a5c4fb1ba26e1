//! The text domain builder: collects what initialising a text domain needs.
use vstd::prelude::*;
use vstd::string::StringExecFns;

verus! {

/// Locale categories of the C library's `locale.h`.
#[derive(PartialEq, Eq, Structural, Clone, Copy, Debug)]
pub enum LocaleCategory {
    /// Character classification and case conversion.
    LcCType,
    /// Non-monetary numeric formats.
    LcNumeric,
    /// Date and time formats.
    LcTime,
    /// Collation order.
    LcCollate,
    /// Monetary formats.
    LcMonetary,
    /// Formats of informative and diagnostic messages and interactive responses.
    LcMessages,
    /// For all.
    LcAll,
    /// Paper size.
    LcPaper,
    /// Name formats.
    LcName,
    /// Address formats and location information.
    LcAddress,
    /// Telephone number formats.
    LcTelephone,
    /// Measurement units (Metric or Other).
    LcMeasurement,
    /// Metadata about the locale information.
    LcIdentification,
}

/// The number that stands for a category in `locale.h`.
pub open spec fn category_code(c: LocaleCategory) -> i32 {
    match c {
        LocaleCategory::LcCType => 0,
        LocaleCategory::LcNumeric => 1,
        LocaleCategory::LcTime => 2,
        LocaleCategory::LcCollate => 3,
        LocaleCategory::LcMonetary => 4,
        LocaleCategory::LcMessages => 5,
        LocaleCategory::LcAll => 6,
        LocaleCategory::LcPaper => 7,
        LocaleCategory::LcName => 8,
        LocaleCategory::LcAddress => 9,
        LocaleCategory::LcTelephone => 10,
        LocaleCategory::LcMeasurement => 11,
        LocaleCategory::LcIdentification => 12,
    }
}

impl LocaleCategory {
    /// The number that stands for this category in `locale.h`.
    pub fn code(self) -> (r: i32)
        ensures
            r == category_code(self),
    {
        match self {
            LocaleCategory::LcCType => 0,
            LocaleCategory::LcNumeric => 1,
            LocaleCategory::LcTime => 2,
            LocaleCategory::LcCollate => 3,
            LocaleCategory::LcMonetary => 4,
            LocaleCategory::LcMessages => 5,
            LocaleCategory::LcAll => 6,
            LocaleCategory::LcPaper => 7,
            LocaleCategory::LcName => 8,
            LocaleCategory::LcAddress => 9,
            LocaleCategory::LcTelephone => 10,
            LocaleCategory::LcMeasurement => 11,
            LocaleCategory::LcIdentification => 12,
        }
    }
}

#[verifier::external_type_specification]
#[verifier::external_body]
pub struct ExIoError(std::io::Error);

/// Why a text domain could not be initialised.
#[derive(Debug)]
pub enum TextDomainError {
    /// The locale is malformed.
    InvalidLocale(String),
    /// No translation for the requested language was found, or the search path is empty.
    TranslationNotFound(String),
    /// The call to `textdomain()` failed.
    TextDomainCallFailed(std::io::Error),
    /// The call to `bindtextdomain()` failed.
    BindTextDomainCallFailed(std::io::Error),
}

/// The language part of a locale tag such as `en-US`: what comes before the
/// first `-`, or the whole tag when it has none.
pub fn language_of(tag: &str) -> (r: String)
    ensures
        r@.len() <= tag@.len(),
        r@ == tag@.subrange(0, r@.len() as int),
        forall|j: int| 0 <= j < r@.len() ==> tag@[j] != '-',
        r@.len() < tag@.len() ==> tag@[r@.len() as int] == '-',
{
    let n = tag.unicode_len();
    let mut i: usize = 0;
    while i < n
        invariant
            n == tag@.len(),
            i <= n,
            forall|j: int| 0 <= j < i ==> tag@[j] != '-',
        ensures
            i <= n,
            forall|j: int| 0 <= j < i ==> tag@[j] != '-',
            i < n ==> tag@[i as int] == '-',
        decreases n - i,
    {
        if tag.get_char(i) == '-' {
            break;
        }
        i = i + 1;
    }
    let r = String::from_str(tag.substring_char(0, i));
    assert(r@ == tag@.subrange(0, i as int));
    r
}

/// True for the locales that the C library provides itself, `C` and `POSIX`,
/// for which no translation is searched.
pub fn is_builtin_locale(locale: &str) -> (r: bool)
    ensures
        r == (locale@ == "C"@ || locale@ == "POSIX"@),
{
    proof {
        reveal_strlit("C");
        reveal_strlit("POSIX");
    }
    let n = locale.unicode_len();
    if n == 1 {
        let r = locale.get_char(0) == 'C';
        assert(r ==> locale@ =~= "C"@);
        assert(locale@ == "C"@ ==> locale@[0] == 'C');
        r
    } else if n == 5 {
        let r = locale.get_char(0) == 'P' && locale.get_char(1) == 'O' && locale.get_char(2) == 'S'
            && locale.get_char(3) == 'I' && locale.get_char(4) == 'X';
        assert(r ==> locale@ =~= "POSIX"@);
        assert(locale@ == "POSIX"@ ==> r);
        r
    } else {
        false
    }
}

/// The settings of a text domain builder, as values.
pub struct TextDomainView {
    pub name: Seq<char>,
    pub locale: Option<Seq<char>>,
    pub locale_category: LocaleCategory,
    pub codeset: Seq<char>,
    pub pre_paths: Seq<Seq<char>>,
    pub post_paths: Seq<Seq<char>>,
    pub skip_system_data_paths: bool,
}

/// A builder for initialising a text domain: its name, the locale and category
/// to set, the codeset to bind, and the paths to search for translations
/// (those prepended, then the system data paths unless skipped, then those pushed).
pub struct TextDomain {
    name: String,
    locale: Option<String>,
    locale_category: LocaleCategory,
    codeset: String,
    pre_paths: Vec<String>,
    post_paths: Vec<String>,
    skip_system_data_paths: bool,
}

/// The characters of each string.
pub open spec fn views_of(v: Seq<String>) -> Seq<Seq<char>> {
    v.map_values(|s: String| s@)
}

fn append_all(out: &mut Vec<String>, items: &Vec<String>)
    ensures
        final(out)@ == old(out)@ + items@,
{
    let mut i: usize = 0;
    while i < items.len()
        invariant
            i <= items@.len(),
            out@ == old(out)@ + items@.subrange(0, i as int),
        decreases items@.len() - i,
    {
        out.push(items[i].clone());
        assert(items@.subrange(0, i + 1) == items@.subrange(0, i as int) + seq![items@[i as int]]);
        i = i + 1;
    }
    assert(items@.subrange(0, items@.len() as int) == items@);
}

impl View for TextDomain {
    type V = TextDomainView;

    closed spec fn view(&self) -> TextDomainView {
        TextDomainView {
            name: self.name@,
            locale: match self.locale {
                Some(l) => Some(l@),
                None => None,
            },
            locale_category: self.locale_category,
            codeset: self.codeset@,
            pre_paths: views_of(self.pre_paths@),
            post_paths: views_of(self.post_paths@),
            skip_system_data_paths: self.skip_system_data_paths,
        }
    }
}

impl TextDomain {
    /// A builder for the text domain `name`: current locale, message category,
    /// UTF-8, no extra paths, system data paths searched.
    pub fn new(name: &str) -> (r: TextDomain)
        ensures
            r@ == (TextDomainView {
                name: name@,
                locale: None,
                locale_category: LocaleCategory::LcMessages,
                codeset: "UTF-8"@,
                pre_paths: seq![],
                post_paths: seq![],
                skip_system_data_paths: false,
            }),
    {
        let r = TextDomain {
            name: String::from_str(name),
            locale: None,
            locale_category: LocaleCategory::LcMessages,
            codeset: String::from_str("UTF-8"),
            pre_paths: Vec::new(),
            post_paths: Vec::new(),
            skip_system_data_paths: false,
        };
        assert(views_of(r.pre_paths@) == Seq::<Seq<char>>::empty());
        assert(views_of(r.post_paths@) == Seq::<Seq<char>>::empty());
        r
    }

    /// Sets the locale to use in place of the current one.
    pub fn locale(self, locale: &str) -> (r: TextDomain)
        ensures
            r@ == (TextDomainView { locale: Some(locale@), ..self@ }),
    {
        TextDomain { locale: Some(String::from_str(locale)), ..self }
    }

    /// Sets the locale category.
    pub fn locale_category(self, locale_category: LocaleCategory) -> (r: TextDomain)
        ensures
            r@ == (TextDomainView { locale_category, ..self@ }),
    {
        TextDomain { locale_category, ..self }
    }

    /// Sets the codeset that translations are converted to.
    pub fn codeset(self, codeset: &str) -> (r: TextDomain)
        ensures
            r@ == (TextDomainView { codeset: codeset@, ..self@ }),
    {
        TextDomain { codeset: String::from_str(codeset), ..self }
    }

    /// Adds `path` to the paths searched before the system data paths.
    pub fn prepend(self, path: &str) -> (r: TextDomain)
        ensures
            r@ == (TextDomainView { pre_paths: self@.pre_paths.push(path@), ..self@ }),
    {
        let mut r = self;
        let p = String::from_str(path);
        let ghost before = r.pre_paths@;
        r.pre_paths.push(p);
        assert(views_of(r.pre_paths@) == views_of(before).push(path@));
        r
    }

    /// Adds `path` to the paths searched after the system data paths.
    pub fn push(self, path: &str) -> (r: TextDomain)
        ensures
            r@ == (TextDomainView { post_paths: self@.post_paths.push(path@), ..self@ }),
    {
        let mut r = self;
        let p = String::from_str(path);
        let ghost before = r.post_paths@;
        r.post_paths.push(p);
        assert(views_of(r.post_paths@) == views_of(before).push(path@));
        r
    }

    /// Leaves the system data paths out of the search.
    pub fn skip_system_data_paths(self) -> (r: TextDomain)
        ensures
            r@ == (TextDomainView { skip_system_data_paths: true, ..self@ }),
    {
        TextDomain { skip_system_data_paths: true, ..self }
    }

    /// The paths to search for translations, in order: those prepended, then
    /// `system_paths` unless system data paths are skipped, then those pushed.
    pub fn search_paths(&self, system_paths: &Vec<String>) -> (r: Vec<String>)
        ensures
            views_of(r@) == self@.pre_paths + (if self@.skip_system_data_paths {
                Seq::<Seq<char>>::empty()
            } else {
                views_of(system_paths@)
            }) + self@.post_paths,
    {
        let mut r: Vec<String> = Vec::new();
        append_all(&mut r, &self.pre_paths);
        if !self.skip_system_data_paths {
            append_all(&mut r, system_paths);
        }
        append_all(&mut r, &self.post_paths);
        proof {
            let sys = if self.skip_system_data_paths {
                Seq::<String>::empty()
            } else {
                system_paths@
            };
            assert(r@ == self.pre_paths@ + sys + self.post_paths@);
            assert(views_of(r@) =~= views_of(self.pre_paths@) + views_of(sys) + views_of(
                self.post_paths@,
            ));
        }
        r
    }

    /// The builder's settings: name, locale, category, codeset, the paths
    /// prepended and pushed, and whether system data paths are skipped.
    pub fn into_parts(self) -> (r: (String, Option<String>, LocaleCategory, String, Vec<String>, Vec<String>, bool))
        ensures
            r.0@ == self@.name,
            r.1 is Some <==> self@.locale is Some,
            r.1 is Some ==> r.1->Some_0@ == self@.locale->Some_0,
            r.2 == self@.locale_category,
            r.3@ == self@.codeset,
            views_of(r.4@) == self@.pre_paths,
            views_of(r.5@) == self@.post_paths,
            r.6 == self@.skip_system_data_paths,
    {
        (
            self.name,
            self.locale,
            self.locale_category,
            self.codeset,
            self.pre_paths,
            self.post_paths,
            self.skip_system_data_paths,
        )
    }
}

} // verus!
