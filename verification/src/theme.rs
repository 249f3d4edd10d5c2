//! Colors of the screen.
use vstd::prelude::*;

use crate::text::{lower, same_ignoring_case, same_text};

verus! {

/// A color by its red, green and blue parts.
#[derive(Debug, Clone, Copy, PartialEq, Eq, Structural)]
pub struct Rgb(pub u8, pub u8, pub u8);

/// A set of colors.
#[derive(Debug)]
pub struct Theme {
    pub name: String,
    pub background: Rgb,
    pub surface: Rgb,
    pub primary: Rgb,
    pub accent: Rgb,
}

/// A set of colors, its name as a sequence of characters.
pub struct Palette {
    pub name: Seq<char>,
    pub background: Rgb,
    pub surface: Rgb,
    pub primary: Rgb,
    pub accent: Rgb,
}

impl View for Theme {
    type V = Palette;

    open spec fn view(&self) -> Palette {
        Palette {
            name: self.name@,
            background: self.background,
            surface: self.surface,
            primary: self.primary,
            accent: self.accent,
        }
    }
}

/// A part of a color that lies `step` of `total` parts of the way from `a` to `b`.
pub open spec fn mixed(a: u8, b: u8, step: int, total: int) -> int {
    (a * (total - step) + b * step) / total
}

/// The color `step` of `total` parts of the way from one color to another.
pub open spec fn blend(from: Rgb, to: Rgb, step: u8, total: u8) -> Rgb {
    let whole = if total == 0 {
        1int
    } else {
        total as int
    };
    let part = if step < whole {
        step as int
    } else {
        whole
    };
    Rgb(
        mixed(from.0, to.0, part, whole) as u8,
        mixed(from.1, to.1, part, whole) as u8,
        mixed(from.2, to.2, part, whole) as u8,
    )
}

proof fn lemma_mixed(a: u8, b: u8, step: int, total: int)
    by (nonlinear_arith)
    requires
        0 < total <= 255,
        0 <= step <= total,
    ensures
        0 <= a * (total - step) <= 65025,
        0 <= b * step <= 65025,
        a * (total - step) + b * step <= 65025,
        0 <= mixed(a, b, step, total) <= 255,
        step == 0 ==> mixed(a, b, step, total) == a,
        step == total ==> mixed(a, b, step, total) == b,
{
    assert(a * (total - step) + b * step <= 255 * total);
}

fn mix(a: u8, b: u8, step: u16, total: u16) -> (r: u8)
    requires
        0 < total <= 255,
        step <= total,
    ensures
        r == mixed(a, b, step as int, total as int),
{
    proof {
        lemma_mixed(a, b, step as int, total as int);
    }
    (((a as u16) * (total - step) + (b as u16) * step) / total) as u8
}

/// A gradient begins with the first color and ends with the second.
pub proof fn law_gradient_has_its_ends(from: Rgb, to: Rgb, step: u8, total: u8)
    ensures
        step == 0 ==> blend(from, to, step, total) == from,
        step > 0 && step >= total ==> blend(from, to, step, total) == to,
{
    let whole = if total == 0 {
        1int
    } else {
        total as int
    };
    let part = if step < whole {
        step as int
    } else {
        whole
    };
    lemma_mixed(from.0, to.0, part, whole);
    lemma_mixed(from.1, to.1, part, whole);
    lemma_mixed(from.2, to.2, part, whole);
}

impl Theme {
    /// The color `step` of `total` parts of the way from the primary color to the
    /// accent.
    pub fn gradient(&self, step: u8, total: u8) -> (r: Rgb)
        ensures
            r == blend(self.primary, self.accent, step, total),
    {
        let whole: u16 = if total == 0 {
            1
        } else {
            total as u16
        };
        let part: u16 = if (step as u16) < whole {
            step as u16
        } else {
            whole
        };
        Rgb(
            mix(self.primary.0, self.accent.0, part, whole),
            mix(self.primary.1, self.accent.1, part, whole),
            mix(self.primary.2, self.accent.2, part, whole),
        )
    }
}

/// The themes that come with the application.
pub open spec fn palettes() -> Seq<Palette> {
    seq![
        Palette {
            name: "Night City"@,
            background: Rgb(10, 7, 18),
            surface: Rgb(35, 14, 48),
            primary: Rgb(238, 28, 76),
            accent: Rgb(247, 239, 0),
        },
        Palette {
            name: "Arasaka"@,
            background: Rgb(5, 5, 7),
            surface: Rgb(28, 28, 32),
            primary: Rgb(210, 13, 35),
            accent: Rgb(235, 235, 235),
        },
        Palette {
            name: "Mox"@,
            background: Rgb(17, 5, 31),
            surface: Rgb(50, 16, 70),
            primary: Rgb(246, 55, 178),
            accent: Rgb(44, 225, 230),
        },
        Palette {
            name: "Samurai"@,
            background: Rgb(8, 4, 5),
            surface: Rgb(45, 8, 14),
            primary: Rgb(236, 22, 45),
            accent: Rgb(255, 198, 0),
        },
    ]
}

/// A list of themes, their names as sequences of characters.
pub open spec fn theme_views(list: Seq<Theme>) -> Seq<Palette> {
    list.map_values(|theme: Theme| theme@)
}

fn theme(name: &str, background: Rgb, surface: Rgb, primary: Rgb, accent: Rgb) -> (r: Theme)
    ensures
        r@ == (Palette { name: name@, background, surface, primary, accent }),
{
    Theme { name: name.to_owned(), background, surface, primary, accent }
}

/// The themes that come with the application.
pub fn presets() -> (r: Vec<Theme>)
    ensures
        theme_views(r@) == palettes(),
{
    let mut r: Vec<Theme> = Vec::new();
    r.push(
        theme(
            "Night City",
            Rgb(10, 7, 18),
            Rgb(35, 14, 48),
            Rgb(238, 28, 76),
            Rgb(247, 239, 0),
        ),
    );
    r.push(
        theme("Arasaka", Rgb(5, 5, 7), Rgb(28, 28, 32), Rgb(210, 13, 35), Rgb(235, 235, 235)),
    );
    r.push(
        theme(
            "Mox",
            Rgb(17, 5, 31),
            Rgb(50, 16, 70),
            Rgb(246, 55, 178),
            Rgb(44, 225, 230),
        ),
    );
    r.push(theme("Samurai", Rgb(8, 4, 5), Rgb(45, 8, 14), Rgb(236, 22, 45), Rgb(255, 198, 0)));
    assert(theme_views(r@) =~= palettes());
    r
}

/// The theme that is used where none is configured.
pub fn default_theme() -> (r: Theme)
    ensures
        r@ == palettes()[0],
{
    let mut all = presets();
    assert(theme_views(all@).len() == 4);
    assert(theme_views(all@)[0] == all@[0]@);
    all.remove(0)
}

/// Whether the theme at `i` is the first with a name, in any case.
pub open spec fn named_at(name: Seq<char>, i: int) -> bool {
    &&& 0 <= i < palettes().len()
    &&& lower(palettes()[i].name) == lower(name)
    &&& forall|j: int| 0 <= j < i ==> lower((#[trigger] palettes()[j]).name) != lower(name)
}

/// The theme with a name, in any case.
pub fn find_theme(name: &str) -> (r: Option<Theme>)
    ensures
        match r {
            Some(theme) => exists|i: int| #[trigger] named_at(name@, i) && theme@ == palettes()[i],
            None => forall|i: int| !named_at(name@, i),
        },
{
    let mut all = presets();
    let ghost known = theme_views(all@);
    let mut i: usize = 0;
    while i < all.len()
        invariant
            i <= all@.len(),
            known == theme_views(all@),
            known == palettes(),
            forall|j: int| 0 <= j < i ==> lower((#[trigger] palettes()[j]).name) != lower(name@),
        decreases all@.len() - i,
    {
        assert(known[i as int] == all@[i as int]@);
        if same_ignoring_case(&all[i].name, name) {
            assert(named_at(name@, i as int));
            return Some(all.remove(i));
        }
        i += 1;
    }
    assert forall|i: int| !named_at(name@, i) by {
        if named_at(name@, i) {
            assert(lower(palettes()[i].name) == lower(name@));
        }
    }
    None
}

/// Where the first theme with exactly a name stands; the first theme where none
/// has it.
pub open spec fn index_of_theme(name: Seq<char>) -> int {
    if palettes()[0].name == name {
        0
    } else if palettes()[1].name == name {
        1
    } else if palettes()[2].name == name {
        2
    } else if palettes()[3].name == name {
        3
    } else {
        0
    }
}

/// The theme after the one with a name, the first after the last.
pub fn next_theme(name: &str) -> (r: Theme)
    ensures
        r@ == palettes()[(index_of_theme(name@) + 1) % 4],
{
    let mut all = presets();
    assert(theme_views(all@).len() == 4);
    assert(theme_views(all@)[0] == all@[0]@ && theme_views(all@)[1] == all@[1]@ && theme_views(
        all@,
    )[2] == all@[2]@ && theme_views(all@)[3] == all@[3]@);
    let next: usize = if same_text(&all[0].name, name) {
        1
    } else if same_text(&all[1].name, name) {
        2
    } else if same_text(&all[2].name, name) {
        3
    } else if same_text(&all[3].name, name) {
        0
    } else {
        1
    };
    all.remove(next)
}

/// Stepping through the themes goes through all of them and around: each is found by its
/// name, and from each the next is the one behind it, from the last the first.
pub proof fn law_themes_go_around(i: int)
    requires
        0 <= i < 4,
    ensures
        palettes().len() == 4,
        index_of_theme(palettes()[i].name) == i,
        palettes()[0].name == "Night City"@,
        palettes()[1].name == "Arasaka"@,
        palettes()[2].name == "Mox"@,
        palettes()[3].name == "Samurai"@,
{
    reveal_strlit("Night City");
    reveal_strlit("Arasaka");
    reveal_strlit("Mox");
    reveal_strlit("Samurai");
    assert("Night City"@.len() == 10 && "Mox"@.len() == 3);
    assert("Arasaka"@[0] == 'A' && "Samurai"@[0] == 'S');
}

/// A color on the way lies between its two ends, part by part.
pub proof fn law_gradient_stays_between(from: Rgb, to: Rgb, step: u8, total: u8)
    ensures
        ({
            let between = blend(from, to, step, total);
            &&& from.0 <= to.0 ==> from.0 <= between.0 <= to.0
            &&& to.0 <= from.0 ==> to.0 <= between.0 <= from.0
            &&& from.1 <= to.1 ==> from.1 <= between.1 <= to.1
            &&& to.1 <= from.1 ==> to.1 <= between.1 <= from.1
            &&& from.2 <= to.2 ==> from.2 <= between.2 <= to.2
            &&& to.2 <= from.2 ==> to.2 <= between.2 <= from.2
        }),
{
    let whole = if total == 0 {
        1int
    } else {
        total as int
    };
    let part = if step < whole {
        step as int
    } else {
        whole
    };
    lemma_between(from.0, to.0, part, whole);
    lemma_between(from.1, to.1, part, whole);
    lemma_between(from.2, to.2, part, whole);
}

proof fn lemma_between(a: u8, b: u8, step: int, total: int)
    requires
        0 < total,
        0 <= step <= total,
    ensures
        a <= b ==> a <= mixed(a, b, step, total) <= b,
        b <= a ==> b <= mixed(a, b, step, total) <= a,
        0 <= mixed(a, b, step, total) <= 255,
{
    let sum = a * (total - step) + b * step;
    let low = if a <= b {
        a as int
    } else {
        b as int
    };
    let high = if a <= b {
        b as int
    } else {
        a as int
    };
    assert(low * total <= sum <= high * total) by (nonlinear_arith)
        requires
            sum == a * (total - step) + b * step,
            0 <= step <= total,
            low <= a <= high,
            low <= b <= high,
    ;
    assert(low <= sum / total <= high) by (nonlinear_arith)
        requires
            low * total <= sum <= high * total,
            0 < total,
    ;
}

} // verus!
