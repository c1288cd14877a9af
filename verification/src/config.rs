//! The global configuration: bar geometry, default colors, the named
//! palette, the chosen renderer, and how all of it becomes the
//! renderer's command line and the environment of spawned block
//! commands.

use vstd::prelude::*;

use crate::color::{lemonbar_code, zelbar_code, Color};
use crate::digits::{spec_dec, u64_to_dec};
use crate::display::Program;
use crate::model::{ActivationLayer, AffectedMonitor};
use crate::text::{push_char, str_eq, to_uppercase, upper_of};
use vstd::pervasive::VecAdditionalExecFns;

verus! {

/// The settings a configuration file's first section may give.
#[derive(Debug)]
pub struct FileConfig {
    pub height: Option<u32>,
    pub bottom: bool,
    pub fonts: Vec<String>,
    pub name: Option<String>,
    pub underline_width: Option<u32>,
    pub background: Option<Color>,
    pub foreground: Option<Color>,
    pub underline: Option<Color>,
    pub separator: Option<String>,
    /// The named palette entries: color name, environment variable,
    /// value. Kept with unique names; use `set_color` and `get_color`.
    pub colors: Vec<(String, String, Color)>,
}

impl FileConfig {
    /// The named palette: each entry is a color name, the environment
    /// variable it is exported as, and its value.
    pub open spec fn spec_colors(&self) -> Seq<(Seq<char>, Seq<char>, Color)> {
        Seq::new(
            self.colors@.len(),
            |i: int| (self.colors@[i].0@, self.colors@[i].1@, self.colors@[i].2),
        )
    }

    /// The color stored under `name`, if any.
    pub open spec fn spec_color_of(&self, name: Seq<char>) -> Option<Color> {
        if exists|i: int| 0 <= i < self.spec_colors().len() && (#[trigger] self.spec_colors()[i]).0
            == name {
            let i = choose|i: int|
                0 <= i < self.spec_colors().len() && (#[trigger] self.spec_colors()[i]).0 == name;
            Some(self.spec_colors()[i].2)
        } else {
            None
        }
    }

    /// Palette names are unique.
    pub open spec fn wf(&self) -> bool {
        forall|i: int, j: int|
            0 <= i < j < self.spec_colors().len() ==> (#[trigger] self.spec_colors()[i]).0 != (
            #[trigger] self.spec_colors()[j]).0
    }

    /// Nothing configured.
    pub fn new() -> (r: FileConfig)
        ensures
            r.height is None,
            !r.bottom,
            r.fonts@.len() == 0,
            r.name is None,
            r.underline_width is None,
            r.background is None,
            r.foreground is None,
            r.underline is None,
            r.separator is None,
            r.spec_colors().len() == 0,
            r.wf(),
    {
        let r = FileConfig {
            height: None,
            bottom: false,
            fonts: Vec::new(),
            name: None,
            underline_width: None,
            background: None,
            foreground: None,
            underline: None,
            separator: None,
            colors: Vec::new(),
        };
        proof {
            assert(r.spec_colors() =~= Seq::<(Seq<char>, Seq<char>, Color)>::empty());
        }
        r
    }

    /// The palette color stored under `name`, if any.
    pub fn get_color(&self, name: &str) -> (r: Option<&Color>)
        requires
            self.wf(),
        ensures
            match r {
                Some(c) => self.spec_color_of(name@) == Some(*c),
                None => self.spec_color_of(name@) is None,
            },
    {
        let mut i: usize = 0;
        while i < self.colors.len()
            invariant
                i <= self.colors@.len(),
                self.wf(),
                forall|j: int| 0 <= j < i ==> (#[trigger] self.spec_colors()[j]).0 != name@,
            decreases self.colors@.len() - i,
        {
            let entry = &self.colors[i];
            if str_eq(entry.0.as_str(), name) {
                proof {
                    assert(self.spec_colors()[i as int].0 == name@);
                }
                return Some(&self.colors[i].2);
            }
            proof {
                assert(self.spec_colors()[i as int].0 != name@);
            }
            i += 1;
        }
        proof {
            if self.spec_color_of(name@) is Some {
                let k = choose|k: int|
                    0 <= k < self.spec_colors().len() && (#[trigger] self.spec_colors()[k]).0
                        == name@;
                assert(false);
            }
        }
        None
    }

    /// Stores `value` under `name`, to be exported as `LEMON_<NAME>`;
    /// returns the color the name previously held, if any.
    pub fn set_color(&mut self, name: &str, value: Color) -> (r: Option<Color>)
        requires
            old(self).wf(),
        ensures
            final(self).wf(),
            final(self).spec_color_of(name@) == Some(value),
            exists|i: int|
                0 <= i < final(self).spec_colors().len() && #[trigger] final(self).spec_colors()[i]
                    == (name@, "LEMON_"@ + upper_of(name@), value),
            r == old(self).spec_color_of(name@),
            forall|other: Seq<char>|
                other != name@ ==> final(self).spec_color_of(other) == old(self).spec_color_of(
                    other,
                ),
            final(self).height == old(self).height,
            final(self).bottom == old(self).bottom,
            final(self).fonts == old(self).fonts,
            final(self).name == old(self).name,
            final(self).underline_width == old(self).underline_width,
            final(self).background == old(self).background,
            final(self).foreground == old(self).foreground,
            final(self).underline == old(self).underline,
            final(self).separator == old(self).separator,
    {
        let mut env_var = String::new();
        push_char(&mut env_var, 'L');
        push_char(&mut env_var, 'E');
        push_char(&mut env_var, 'M');
        push_char(&mut env_var, 'O');
        push_char(&mut env_var, 'N');
        push_char(&mut env_var, '_');
        let upper = to_uppercase(name);
        env_var.append(upper.as_str());
        proof {
            reveal_strlit("LEMON_");
            assert(env_var@ =~= "LEMON_"@ + upper_of(name@));
        }
        let mut i: usize = 0;
        while i < self.colors.len()
            invariant
                i <= self.colors@.len(),
                self.wf(),
                *self == *old(self),
                env_var@ == "LEMON_"@ + upper_of(name@),
                forall|j: int| 0 <= j < i ==> (#[trigger] self.spec_colors()[j]).0 != name@,
            decreases self.colors@.len() - i,
        {
            if str_eq(self.colors[i].0.as_str(), name) {
                proof {
                    assert(self.spec_colors()[i as int].0 == name@);
                }
                let previous = self.colors[i].2;
                let key = name.to_owned();
                let ghost key_v = key@;
                let ghost env_v = env_var@;
                self.colors.set(i, (key, env_var, value));
                proof {
                    let ii = i as int;
                    assert forall|x: int, y: int|
                        0 <= x < y < self.spec_colors().len() implies (
                    #[trigger] self.spec_colors()[x]).0 != (#[trigger] self.spec_colors()[y]).0 by {
                        if x != ii && y != ii {
                            assert(old(self).spec_colors()[x].0 != old(self).spec_colors()[y].0);
                        } else if x == ii {
                            assert(old(self).spec_colors()[ii].0 != old(self).spec_colors()[y].0);
                            assert(old(self).spec_colors()[y].0 != name@);
                        } else {
                            assert(old(self).spec_colors()[x].0 != old(self).spec_colors()[ii].0);
                            assert(old(self).spec_colors()[x].0 != name@);
                        }
                    }
                    lemma_color_of_at(*old(self), name@, ii);
                    assert forall|other: Seq<char>| other != name@ implies self.spec_color_of(
                        other,
                    ) == old(self).spec_color_of(other) by {
                        lemma_color_of_frame(*old(self), *self, other, ii);
                    }
                    assert(self.spec_colors()[ii].0 == name@);
                    lemma_color_of_at(*self, name@, ii);
                    assert(self.colors@[ii].0@ == key_v && self.colors@[ii].1@ == env_v);
                    assert(self.spec_colors()[ii] == (
                        self.colors@[ii].0@,
                        self.colors@[ii].1@,
                        self.colors@[ii].2,
                    ));
                    assert(self.spec_colors()[ii] == (
                        name@,
                        "LEMON_"@ + upper_of(name@),
                        value,
                    ));
                }
                return Some(previous);
            }
            proof {
                assert(self.spec_colors()[i as int].0 != name@);
            }
            i += 1;
        }
        proof {
            if old(self).spec_color_of(name@) is Some {
                let k = choose|k: int|
                    0 <= k < old(self).spec_colors().len() && (#[trigger] old(
                        self,
                    ).spec_colors()[k]).0 == name@;
                assert(false);
            }
        }
        let key = name.to_owned();
        let ghost key_v = key@;
        let ghost env_v = env_var@;
        self.colors.push((key, env_var, value));
        proof {
            assert(self.spec_colors() =~= old(self).spec_colors().push(
                (name@, self.colors@.last().1@, value),
            ));
            let last = self.spec_colors().len() - 1;
            assert forall|x: int, y: int|
                0 <= x < y < self.spec_colors().len() implies (#[trigger] self.spec_colors()[x]).0
                != (#[trigger] self.spec_colors()[y]).0 by {
                if y != last {
                    assert(old(self).spec_colors()[x].0 != old(self).spec_colors()[y].0);
                } else {
                    assert(old(self).spec_colors()[x].0 != name@);
                }
            }
            lemma_color_of_at(*self, name@, last);
            assert(self.colors@[last].0@ == key_v && self.colors@[last].1@ == env_v);
            assert(self.spec_colors()[last] == (
                self.colors@[last].0@,
                self.colors@[last].1@,
                self.colors@[last].2,
            ));
            assert(self.spec_colors()[last] == (name@, "LEMON_"@ + upper_of(name@), value));
            assert forall|other: Seq<char>| other != name@ implies self.spec_color_of(other)
                == old(self).spec_color_of(other) by {
                lemma_color_of_frame_push(*old(self), *self, other);
            }
        }
        None
    }
}

/// If entry `i` holds `name`, the lookup finds its color.
proof fn lemma_color_of_at(c: FileConfig, name: Seq<char>, i: int)
    requires
        c.wf(),
        0 <= i < c.spec_colors().len(),
        c.spec_colors()[i].0 == name,
    ensures
        c.spec_color_of(name) == Some(c.spec_colors()[i].2),
{
    let k = choose|k: int|
        0 <= k < c.spec_colors().len() && (#[trigger] c.spec_colors()[k]).0 == name;
    if k != i {
        if k < i {
            assert(c.spec_colors()[k].0 != c.spec_colors()[i].0);
        } else {
            assert(c.spec_colors()[i].0 != c.spec_colors()[k].0);
        }
    }
}

/// Replacing entry `i` does not change lookups under other names.
proof fn lemma_color_of_frame(c1: FileConfig, c2: FileConfig, name: Seq<char>, i: int)
    requires
        c1.wf(),
        c2.wf(),
        c1.spec_colors().len() == c2.spec_colors().len(),
        forall|j: int|
            0 <= j < c1.spec_colors().len() && j != i ==> (#[trigger] c1.spec_colors()[j]) == (
            #[trigger] c2.spec_colors()[j]),
        0 <= i < c1.spec_colors().len(),
        c1.spec_colors()[i].0 != name,
        c2.spec_colors()[i].0 != name,
    ensures
        c1.spec_color_of(name) == c2.spec_color_of(name),
{
    if exists|k: int|
        0 <= k < c1.spec_colors().len() && (#[trigger] c1.spec_colors()[k]).0 == name {
        let k1 = choose|k: int|
            0 <= k < c1.spec_colors().len() && (#[trigger] c1.spec_colors()[k]).0 == name;
        assert(k1 != i);
        assert(c2.spec_colors()[k1].0 == name);
        let k2 = choose|k: int|
            0 <= k < c2.spec_colors().len() && (#[trigger] c2.spec_colors()[k]).0 == name;
        if k1 != k2 {
            if k1 < k2 {
                assert(c2.spec_colors()[k1].0 != c2.spec_colors()[k2].0);
            } else {
                assert(c2.spec_colors()[k2].0 != c2.spec_colors()[k1].0);
            }
        }
        assert(c1.spec_color_of(name) == Some(c1.spec_colors()[k1].2));
        assert(c2.spec_color_of(name) == Some(c2.spec_colors()[k1].2));
    } else {
        if exists|k: int|
            0 <= k < c2.spec_colors().len() && (#[trigger] c2.spec_colors()[k]).0 == name {
            let k = choose|k: int|
                0 <= k < c2.spec_colors().len() && (#[trigger] c2.spec_colors()[k]).0 == name;
            assert(c1.spec_colors()[k].0 == name);
            assert(false);
        }
    }
}

/// Appending an entry does not change lookups under other names.
proof fn lemma_color_of_frame_push(c1: FileConfig, c2: FileConfig, name: Seq<char>)
    requires
        c1.wf(),
        c2.wf(),
        c2.spec_colors().len() == c1.spec_colors().len() + 1,
        forall|j: int|
            0 <= j < c1.spec_colors().len() ==> (#[trigger] c1.spec_colors()[j]) == (
            #[trigger] c2.spec_colors()[j]),
        c2.spec_colors().last().0 != name,
    ensures
        c1.spec_color_of(name) == c2.spec_color_of(name),
{
    if exists|k: int|
        0 <= k < c1.spec_colors().len() && (#[trigger] c1.spec_colors()[k]).0 == name {
        let k1 = choose|k: int|
            0 <= k < c1.spec_colors().len() && (#[trigger] c1.spec_colors()[k]).0 == name;
        assert(c2.spec_colors()[k1].0 == name);
        let k2 = choose|k: int|
            0 <= k < c2.spec_colors().len() && (#[trigger] c2.spec_colors()[k]).0 == name;
        if k1 != k2 {
            if k1 < k2 {
                assert(c2.spec_colors()[k1].0 != c2.spec_colors()[k2].0);
            } else {
                assert(c2.spec_colors()[k2].0 != c2.spec_colors()[k1].0);
            }
        }
        assert(c1.spec_color_of(name) == Some(c1.spec_colors()[k1].2));
        assert(c2.spec_color_of(name) == Some(c2.spec_colors()[k1].2));
    } else {
        if exists|k: int|
            0 <= k < c2.spec_colors().len() && (#[trigger] c2.spec_colors()[k]).0 == name {
            let k = choose|k: int|
                0 <= k < c2.spec_colors().len() && (#[trigger] c2.spec_colors()[k]).0 == name;
            assert(k < c1.spec_colors().len());
            assert(c1.spec_colors()[k].0 == name);
            assert(false);
        }
    }
}

/// What must come from the command line: the outputs to draw on, the
/// tray toggle, and the renderer to use.
#[derive(Debug)]
pub struct CommandLineConfig {
    pub outputs: Vec<String>,
    pub tray: bool,
    pub program: Program,
}

impl CommandLineConfig {
    /// Nothing passed: no outputs, no tray, the default renderer.
    pub fn new() -> (r: CommandLineConfig)
        ensures
            r.outputs@.len() == 0,
            !r.tray,
            r.program == Program::Lemonbar,
    {
        CommandLineConfig { outputs: Vec::new(), tray: false, program: Program::Lemonbar }
    }
}

/// The whole global configuration.
#[derive(Debug)]
pub struct GlobalConfig {
    pub file_config: FileConfig,
    pub cmdline: CommandLineConfig,
    pub n_layers: u16,
}

impl GlobalConfig {
    pub open spec fn wf(&self) -> bool {
        self.file_config.wf()
    }

    /// The file configuration overridden field by field by the command
    /// line: every field the command line sets wins; the palette always
    /// comes from the file; the layer count starts at zero.
    pub fn new(file_config: FileConfig, overrides: GlobalConfig) -> (r: GlobalConfig)
        ensures
            r.file_config.height == (if overrides.file_config.height is Some {
                overrides.file_config.height
            } else {
                file_config.height
            }),
            r.file_config.bottom == (overrides.file_config.bottom || file_config.bottom),
            r.file_config.fonts@ == (if overrides.file_config.fonts@.len() == 0 {
                file_config.fonts@
            } else {
                overrides.file_config.fonts@
            }),
            r.file_config.name == (if overrides.file_config.name is Some {
                overrides.file_config.name
            } else {
                file_config.name
            }),
            r.file_config.underline_width == (if overrides.file_config.underline_width is Some {
                overrides.file_config.underline_width
            } else {
                file_config.underline_width
            }),
            r.file_config.background == (if overrides.file_config.background is Some {
                overrides.file_config.background
            } else {
                file_config.background
            }),
            r.file_config.foreground == (if overrides.file_config.foreground is Some {
                overrides.file_config.foreground
            } else {
                file_config.foreground
            }),
            r.file_config.underline == (if overrides.file_config.underline is Some {
                overrides.file_config.underline
            } else {
                file_config.underline
            }),
            r.file_config.separator == (if overrides.file_config.separator is Some {
                overrides.file_config.separator
            } else {
                file_config.separator
            }),
            r.file_config.spec_colors() == file_config.spec_colors(),
            r.cmdline == overrides.cmdline,
            r.n_layers == 0,
            file_config.wf() ==> r.wf(),
    {
        let GlobalConfig { file_config: o_file, cmdline, n_layers: _ } = overrides;
        let FileConfig {
            height: f_height,
            bottom: f_bottom,
            fonts: f_fonts,
            name: f_name,
            underline_width: f_uw,
            background: f_bg,
            foreground: f_fg,
            underline: f_un,
            separator: f_sep,
            colors: f_colors,
        } = file_config;
        let merged = FileConfig {
            height: match o_file.height {
                Option::Some(h) => Some(h),
                Option::None => f_height,
            },
            bottom: o_file.bottom || f_bottom,
            fonts: if o_file.fonts.len() == 0 {
                f_fonts
            } else {
                o_file.fonts
            },
            name: match o_file.name {
                Option::Some(n) => Some(n),
                Option::None => f_name,
            },
            underline_width: match o_file.underline_width {
                Option::Some(u) => Some(u),
                Option::None => f_uw,
            },
            background: match o_file.background {
                Option::Some(c) => Some(c),
                Option::None => f_bg,
            },
            foreground: match o_file.foreground {
                Option::Some(c) => Some(c),
                Option::None => f_fg,
            },
            underline: match o_file.underline {
                Option::Some(c) => Some(c),
                Option::None => f_un,
            },
            separator: match o_file.separator {
                Option::Some(s) => Some(s),
                Option::None => f_sep,
            },
            colors: f_colors,
        };
        GlobalConfig { file_config: merged, cmdline, n_layers: 0 }
    }

    /// The palette color stored under `name`, if any.
    pub fn get_color(&self, name: &str) -> (r: Option<&Color>)
        requires
            self.wf(),
        ensures
            match r {
                Some(c) => self.file_config.spec_color_of(name@) == Some(*c),
                None => self.file_config.spec_color_of(name@) is None,
            },
    {
        self.file_config.get_color(name)
    }

    /// The environment a spawned block command receives: the default
    /// colors (empty when unset), the monitor (a number, or `all`), the
    /// layer (a number, or `all`), every palette color under its
    /// `LEMON_<NAME>` variable, and the chosen renderer's name.
    pub fn as_env_vars(&self, monitor: AffectedMonitor, layer: ActivationLayer) -> (r: Vec<
        (String, String),
    >)
        ensures
            r.deep_view() == spec_env_vars(*self, monitor, layer),
    {
        let mut r: Vec<(String, String)> = Vec::new();
        r.push((String::from_str("LEMON_BG"), color_or_empty(&self.file_config.background)));
        r.push((String::from_str("LEMON_FG"), color_or_empty(&self.file_config.foreground)));
        r.push((String::from_str("LEMON_UN"), color_or_empty(&self.file_config.underline)));
        let mon_text = match monitor {
            AffectedMonitor::All => String::from_str("all"),
            AffectedMonitor::Single(n) => u64_to_dec(n as u64),
        };
        r.push((String::from_str("LEMON_MONITOR"), mon_text));
        let layer_text = match layer {
            ActivationLayer::All => String::from_str("all"),
            ActivationLayer::L(n) => u64_to_dec(n as u64),
        };
        r.push((String::from_str("LEMON_LAYER"), layer_text));
        let mut i: usize = 0;
        proof {
            assert(r.deep_view() =~~= spec_env_vars(*self, monitor, layer).take(5));
        }
        while i < self.file_config.colors.len()
            invariant
                i <= self.file_config.colors@.len(),
                r.deep_view() =~~= spec_env_vars(*self, monitor, layer).take(5 + i),
                spec_env_vars(*self, monitor, layer).len() == 6 + self.file_config.colors@.len(),
            decreases self.file_config.colors@.len() - i,
        {
            let entry = &self.file_config.colors[i];
            let var = entry.1.clone();
            let code = entry.2.to_code();
            let ghost pre_dv = r.deep_view();
            let ghost var_v = var@;
            let ghost code_v = code@;
            r.push((var, code));
            proof {
                assert(r.deep_view() =~~= pre_dv.push((var_v, code_v)));
                assert(r.deep_view() =~~= spec_env_vars(*self, monitor, layer).take(5 + i + 1));
            }
            i += 1;
        }
        let prog_name = self.cmdline.program.as_str();
        let ghost pre_dv = r.deep_view();
        let var = String::from_str("LEMON_PROGRAM");
        let val = prog_name.to_owned();
        let ghost var_v = var@;
        let ghost val_v = val@;
        r.push((var, val));
        proof {
            assert(r.deep_view() =~~= pre_dv.push((var_v, val_v)));
            assert(r.deep_view() =~~= spec_env_vars(*self, monitor, layer));
        }
        r
    }
}

/// A color's lemonbar code, or the empty string when unset.
fn color_or_empty(c: &Option<Color>) -> (r: String)
    ensures
        r@ == spec_color_or_empty(*c),
{
    match c {
        Option::Some(c) => c.to_code(),
        Option::None => String::new(),
    }
}

/// A color's lemonbar code, or the empty string when unset.
pub open spec fn spec_color_or_empty(c: Option<Color>) -> Seq<char> {
    match c {
        Option::Some(c) => lemonbar_code(c),
        Option::None => Seq::empty(),
    }
}

/// The environment of a spawned block command.
pub open spec fn spec_env_vars(
    g: GlobalConfig,
    monitor: AffectedMonitor,
    layer: ActivationLayer,
) -> Seq<(Seq<char>, Seq<char>)> {
    seq![
        ("LEMON_BG"@, spec_color_or_empty(g.file_config.background)),
        ("LEMON_FG"@, spec_color_or_empty(g.file_config.foreground)),
        ("LEMON_UN"@, spec_color_or_empty(g.file_config.underline)),
        (
            "LEMON_MONITOR"@,
            match monitor {
                AffectedMonitor::All => "all"@,
                AffectedMonitor::Single(n) => spec_dec(n as nat),
            },
        ),
        (
            "LEMON_LAYER"@,
            match layer {
                ActivationLayer::All => "all"@,
                ActivationLayer::L(n) => spec_dec(n as nat),
            },
        ),
    ] + Seq::new(
        g.file_config.spec_colors().len(),
        |i: int|
            (g.file_config.spec_colors()[i].1, lemonbar_code(g.file_config.spec_colors()[i].2)),
    ) + seq![
        (
            "LEMON_PROGRAM"@,
            match g.cmdline.program {
                Program::Lemonbar => "lemonbar"@,
                Program::Zelbar => "zelbar"@,
            },
        ),
    ]
}

// ---------------------------------------------------------------------------
// renderer command lines
// ---------------------------------------------------------------------------

/// Builds one renderer's command-line arguments; each renderer has its
/// own flag vocabulary.
pub trait CmdlineArgBuilder {
    /// Names an output to draw on.
    fn output(&mut self, name: &str);

    /// The bar's height in pixels.
    fn height(&mut self, height: u32);

    /// Docks the bar at the bottom.
    fn bottom(&mut self);

    /// The font list.
    fn fonts(&mut self, fonts: &Vec<String>);

    /// The bar's window name.
    fn name(&mut self, name: &str);

    /// The underline thickness in pixels.
    fn underline_width(&mut self, width: u32);

    /// The underline color.
    fn underline_color(&mut self, color: &Color);

    /// The default background.
    fn background(&mut self, color: &Color);

    /// The default foreground.
    fn foreground(&mut self, color: &Color);

    /// The finished argument list.
    fn finish(self) -> Vec<String>;
}

/// One lemonbar geometry argument: `<width>x<height>+<x>+0`.
pub open spec fn lemon_geometry(width: u32, height: u32, x_offset: u32) -> Seq<char> {
    spec_dec(width as nat) + seq!['x'] + spec_dec(height as nat) + seq!['+'] + spec_dec(
        x_offset as nat,
    ) + seq!['+', '0']
}

/// One `-f <font>` pair per font, in order.
pub open spec fn lemon_font_flags(fonts: Seq<Seq<char>>) -> Seq<Seq<char>>
    decreases fonts.len(),
{
    if fonts.len() == 0 {
        Seq::empty()
    } else {
        seq!["-f"@, fonts[0]] + lemon_font_flags(fonts.skip(1))
    }
}

/// One `-g` geometry pair per resolved output, in order, all at the
/// configured height.
pub open spec fn lemon_geometry_flags(geometries: Seq<(u32, u32)>, height: u32) -> Seq<Seq<char>>
    decreases geometries.len(),
{
    if geometries.len() == 0 {
        Seq::empty()
    } else {
        seq!["-g"@, lemon_geometry(geometries[0].0, height, geometries[0].1)]
            + lemon_geometry_flags(geometries.skip(1), height)
    }
}

/// The fonts joined with commas.
pub open spec fn join_commas(items: Seq<Seq<char>>) -> Seq<char>
    decreases items.len(),
{
    if items.len() == 0 {
        Seq::empty()
    } else {
        items[0] + join_commas_tail(items.skip(1))
    }
}

/// Every further font, each behind a comma.
pub open spec fn join_commas_tail(items: Seq<Seq<char>>) -> Seq<char>
    decreases items.len(),
{
    if items.len() == 0 {
        Seq::empty()
    } else {
        seq![','] + items[0] + join_commas_tail(items.skip(1))
    }
}

/// The height the bar is drawn at: the configured one, or the default.
pub open spec fn height_or_default(h: Option<u32>) -> u32 {
    match h {
        Option::Some(h) => h,
        Option::None => 22,
    }
}

/// The lemonbar flags the configured settings produce, between the
/// fixed opening arguments and the trailing geometries: docking, fonts,
/// window name, underline width, then the default colors.
pub open spec fn spec_lemon_flags(fc: FileConfig) -> Seq<Seq<char>> {
    (if fc.bottom {
        seq!["-b"@]
    } else {
        Seq::empty()
    }) + lemon_font_flags(fc.fonts.deep_view()) + (match fc.name {
        Option::Some(n) => seq!["-n"@, n@],
        Option::None => Seq::empty(),
    }) + (match fc.underline_width {
        Option::Some(u) => seq!["-u"@, spec_dec(u as nat)],
        Option::None => Seq::empty(),
    }) + (match fc.background {
        Option::Some(c) => seq!["-B"@, lemonbar_code(c)],
        Option::None => Seq::empty(),
    }) + (match fc.foreground {
        Option::Some(c) => seq!["-F"@, lemonbar_code(c)],
        Option::None => Seq::empty(),
    }) + (match fc.underline {
        Option::Some(c) => seq!["-U"@, lemonbar_code(c)],
        Option::None => Seq::empty(),
    })
}

/// The whole lemonbar command line: the fixed opening arguments, the
/// configured flags, and one geometry per resolved output.
pub open spec fn spec_lemon_args(fc: FileConfig, geometries: Seq<(u32, u32)>) -> Seq<Seq<char>> {
    seq!["-a"@, "255"@, "-d"@] + spec_lemon_flags(fc) + lemon_geometry_flags(
        geometries,
        height_or_default(fc.height),
    )
}

/// The whole zelbar command line: geometry, output, docking, fonts,
/// underline width, then the default colors, each under zelbar's flag
/// names and color syntax.
pub open spec fn spec_zelbar_args(fc: FileConfig, output: Option<Seq<char>>) -> Seq<Seq<char>> {
    (match fc.height {
        Option::Some(h) => seq!["-g"@, seq!['0', ':'] + spec_dec(h as nat)],
        Option::None => Seq::empty(),
    }) + (match output {
        Option::Some(o) => seq!["-o"@, o],
        Option::None => Seq::empty(),
    }) + (if fc.bottom {
        seq!["-btm"@]
    } else {
        Seq::empty()
    }) + seq!["-fn"@, join_commas(fc.fonts.deep_view())] + (match fc.underline_width {
        Option::Some(u) => seq!["-lh"@, spec_dec(u as nat)],
        Option::None => Seq::empty(),
    }) + (match fc.background {
        Option::Some(c) => seq!["-B"@, zelbar_code(c)],
        Option::None => Seq::empty(),
    }) + (match fc.foreground {
        Option::Some(c) => seq!["-F"@, zelbar_code(c)],
        Option::None => Seq::empty(),
    }) + (match fc.underline {
        Option::Some(c) => seq!["-lc"@, zelbar_code(c)],
        Option::None => Seq::empty(),
    })
}

/// Arguments for the lemonbar renderer. Output names cannot be passed
/// to lemonbar directly; the caller resolves each named output to a
/// screen geometry first and supplies it through `geometry`.
#[derive(Debug)]
pub struct LemonArgs {
    pub height: u32,
    pub geometries: Vec<(u32, u32)>,
    pub args: Vec<String>,
}

impl LemonArgs {
    /// The starting arguments: the maximum number of clickable areas,
    /// and forced docking for window managers that cannot be asked.
    pub fn new() -> (r: LemonArgs)
        ensures
            r.height == 22,
            r.geometries@.len() == 0,
            r.args.deep_view() =~~= seq!["-a"@, "255"@, "-d"@],
    {
        let mut args: Vec<String> = Vec::new();
        args.push(String::from_str("-a"));
        args.push(String::from_str("255"));
        args.push(String::from_str("-d"));
        let r = LemonArgs { height: 22, geometries: Vec::new(), args };
        proof {
            assert(r.args.deep_view() =~~= seq!["-a"@, "255"@, "-d"@]);
        }
        r
    }

    /// A resolved output geometry: its width and horizontal offset.
    pub fn geometry(&mut self, width: u32, x_offset: u32)
        ensures
            final(self).geometries@ == old(self).geometries@.push((width, x_offset)),
            final(self).args == old(self).args,
            final(self).height == old(self).height,
    {
        self.geometries.push((width, x_offset));
    }

    /// Remembers the height; it only shows in the geometries.
    pub fn set_height(&mut self, height: u32)
        ensures
            final(self).height == height,
            final(self).args == old(self).args,
            final(self).geometries == old(self).geometries,
    {
        self.height = height;
    }

    /// Appends `-b`.
    pub fn add_bottom(&mut self)
        ensures
            final(self).args.deep_view() =~~= old(self).args.deep_view() + seq!["-b"@],
            final(self).height == old(self).height,
            final(self).geometries == old(self).geometries,
    {
        let ghost pre = self.args.deep_view();
        self.args.push(String::from_str("-b"));
        proof {
            assert(self.args.deep_view() =~~= pre + seq!["-b"@]);
        }
    }

    /// Appends `-f <font>` for every font, in order.
    pub fn add_fonts(&mut self, fonts: &Vec<String>)
        ensures
            final(self).args.deep_view() =~~= old(self).args.deep_view() + lemon_font_flags(
                fonts.deep_view(),
            ),
            final(self).height == old(self).height,
            final(self).geometries == old(self).geometries,
    {
        let ghost full = fonts.deep_view();
        let ghost base = self.args.deep_view();
        let ghost mut emitted: Seq<Seq<char>> = Seq::empty();
        proof {
            assert(full.skip(0) =~~= full);
        }
        let mut i: usize = 0;
        while i < fonts.len()
            invariant
                i <= fonts@.len(),
                full == fonts.deep_view(),
                self.args.deep_view() =~~= base + emitted,
                lemon_font_flags(full) =~~= emitted + lemon_font_flags(full.skip(i as int)),
                self.height == old(self).height,
                self.geometries == old(self).geometries,
            decreases fonts@.len() - i,
        {
            let ghost pre = self.args.deep_view();
            self.args.push(String::from_str("-f"));
            let font = fonts[i].clone();
            let ghost font_v = font@;
            self.args.push(font);
            proof {
                assert(self.args.deep_view() =~~= pre + seq!["-f"@, font_v]);
                assert(full.skip(i as int)[0] == full[i as int]);
                assert(full.skip(i as int).skip(1) =~~= full.skip(i + 1));
                emitted = emitted + seq!["-f"@, font_v];
                assert(lemon_font_flags(full) =~~= emitted + lemon_font_flags(full.skip(i + 1)));
            }
            i += 1;
        }
        proof {
            assert(lemon_font_flags(full.skip(fonts@.len() as int)) =~~= Seq::<Seq<char>>::empty());
            assert(lemon_font_flags(full) =~~= emitted);
        }
    }

    /// Appends `-n <name>`.
    pub fn add_name(&mut self, name: &str)
        ensures
            final(self).args.deep_view() =~~= old(self).args.deep_view() + seq!["-n"@, name@],
            final(self).height == old(self).height,
            final(self).geometries == old(self).geometries,
    {
        let ghost pre = self.args.deep_view();
        self.args.push(String::from_str("-n"));
        self.args.push(name.to_owned());
        proof {
            assert(self.args.deep_view() =~~= pre + seq!["-n"@, name@]);
        }
    }

    /// Appends `-u <width>`.
    pub fn add_underline_width(&mut self, width: u32)
        ensures
            final(self).args.deep_view() =~~= old(self).args.deep_view() + seq![
                "-u"@,
                spec_dec(width as nat),
            ],
            final(self).height == old(self).height,
            final(self).geometries == old(self).geometries,
    {
        let ghost pre = self.args.deep_view();
        self.args.push(String::from_str("-u"));
        self.args.push(u64_to_dec(width as u64));
        proof {
            assert(self.args.deep_view() =~~= pre + seq!["-u"@, spec_dec(width as nat)]);
        }
    }

    /// Appends a color flag with lemonbar's color syntax.
    pub fn add_color(&mut self, flag_letter: char, color: &Color)
        ensures
            final(self).args.deep_view() =~~= old(self).args.deep_view() + seq![
                seq!['-', flag_letter],
                lemonbar_code(*color),
            ],
            final(self).height == old(self).height,
            final(self).geometries == old(self).geometries,
    {
        let ghost pre = self.args.deep_view();
        let mut flag = String::new();
        push_char(&mut flag, '-');
        push_char(&mut flag, flag_letter);
        self.args.push(flag);
        self.args.push(color.to_code());
        proof {
            assert(self.args.deep_view() =~~= pre + seq![
                seq!['-', flag_letter],
                lemonbar_code(*color),
            ]);
        }
    }

    /// The collected flags, with one `-g` geometry per resolved output.
    pub fn done(self) -> (r: Vec<String>)
        ensures
            r.deep_view() =~~= self.args.deep_view() + lemon_geometry_flags(
                self.geometries@,
                self.height,
            ),
    {
        let LemonArgs { height, geometries, mut args } = self;
        let ghost full = geometries@;
        let ghost base = args.deep_view();
        let ghost mut emitted: Seq<Seq<char>> = Seq::empty();
        proof {
            assert(full.skip(0) =~= full);
        }
        let mut i: usize = 0;
        while i < geometries.len()
            invariant
                i <= geometries@.len(),
                full == geometries@,
                args.deep_view() =~~= base + emitted,
                lemon_geometry_flags(full, height) =~~= emitted + lemon_geometry_flags(
                    full.skip(i as int),
                    height,
                ),
            decreases geometries@.len() - i,
        {
            let ghost pre = args.deep_view();
            args.push(String::from_str("-g"));
            let (w, x) = geometries[i];
            let mut g = u64_to_dec(w as u64);
            push_char(&mut g, 'x');
            let h = u64_to_dec(height as u64);
            g.append(h.as_str());
            push_char(&mut g, '+');
            let xs = u64_to_dec(x as u64);
            g.append(xs.as_str());
            push_char(&mut g, '+');
            push_char(&mut g, '0');
            proof {
                assert(g@ =~= lemon_geometry(w, height, x));
            }
            let ghost g_v = g@;
            args.push(g);
            proof {
                assert(args.deep_view() =~~= pre + seq!["-g"@, g_v]);
                assert(full.skip(i as int)[0] == full[i as int]);
                assert(full.skip(i as int).skip(1) =~= full.skip(i + 1));
                emitted = emitted + seq!["-g"@, g_v];
                assert(lemon_geometry_flags(full, height) =~~= emitted + lemon_geometry_flags(
                    full.skip(i + 1),
                    height,
                ));
            }
            i += 1;
        }
        proof {
            assert(lemon_geometry_flags(full.skip(full.len() as int), height)
                =~~= Seq::<Seq<char>>::empty());
            assert(args.deep_view() =~~= base + lemon_geometry_flags(full, height));
        }
        args
    }
}

impl CmdlineArgBuilder for LemonArgs {
    /// Lemonbar cannot take an output by name; the caller resolves the
    /// name to a geometry instead.
    fn output(&mut self, name: &str) {
    }

    fn height(&mut self, height: u32) {
        self.set_height(height);
    }

    fn bottom(&mut self) {
        self.add_bottom();
    }

    fn fonts(&mut self, fonts: &Vec<String>) {
        self.add_fonts(fonts);
    }

    fn name(&mut self, name: &str) {
        self.add_name(name);
    }

    fn underline_width(&mut self, width: u32) {
        self.add_underline_width(width);
    }

    fn underline_color(&mut self, color: &Color) {
        self.add_color('U', color);
    }

    fn background(&mut self, color: &Color) {
        self.add_color('B', color);
    }

    fn foreground(&mut self, color: &Color) {
        self.add_color('F', color);
    }

    fn finish(self) -> Vec<String> {
        self.done()
    }
}

/// Arguments for the zelbar renderer.
#[derive(Debug)]
pub struct ZelbarArgs {
    pub args: Vec<String>,
}

impl ZelbarArgs {
    /// No arguments yet.
    pub fn new() -> (r: ZelbarArgs)
        ensures
            r.args@.len() == 0,
            r.args.deep_view() =~~= Seq::<Seq<char>>::empty(),
    {
        ZelbarArgs { args: Vec::new() }
    }

    /// Appends `-o <name>`.
    pub fn add_output(&mut self, name: &str)
        ensures
            final(self).args.deep_view() =~~= old(self).args.deep_view() + seq!["-o"@, name@],
    {
        let ghost pre = self.args.deep_view();
        self.args.push(String::from_str("-o"));
        self.args.push(name.to_owned());
        proof {
            assert(self.args.deep_view() =~~= pre + seq!["-o"@, name@]);
        }
    }

    /// Appends `-g 0:<height>`.
    pub fn add_height(&mut self, height: u32)
        ensures
            final(self).args.deep_view() =~~= old(self).args.deep_view() + seq![
                "-g"@,
                seq!['0', ':'] + spec_dec(height as nat),
            ],
    {
        let ghost pre = self.args.deep_view();
        self.args.push(String::from_str("-g"));
        let mut g = String::new();
        push_char(&mut g, '0');
        push_char(&mut g, ':');
        let h = u64_to_dec(height as u64);
        g.append(h.as_str());
        let ghost g_v = g@;
        self.args.push(g);
        proof {
            assert(g_v =~= seq!['0', ':'] + spec_dec(height as nat));
            assert(self.args.deep_view() =~~= pre + seq!["-g"@, g_v]);
        }
    }

    /// Appends `-btm`.
    pub fn add_bottom(&mut self)
        ensures
            final(self).args.deep_view() =~~= old(self).args.deep_view() + seq!["-btm"@],
    {
        let ghost pre = self.args.deep_view();
        self.args.push(String::from_str("-btm"));
        proof {
            assert(self.args.deep_view() =~~= pre + seq!["-btm"@]);
        }
    }

    /// Appends `-fn` with every font joined by commas.
    pub fn add_fonts(&mut self, fonts: &Vec<String>)
        ensures
            final(self).args.deep_view() =~~= old(self).args.deep_view() + seq![
                "-fn"@,
                join_commas(fonts.deep_view()),
            ],
    {
        let ghost full = fonts.deep_view();
        let mut joined = String::new();
        let mut i: usize = 0;
        let ghost mut emitted: Seq<char> = Seq::empty();
        proof {
            assert(full.skip(0) =~~= full);
        }
        while i < fonts.len()
            invariant
                i <= fonts@.len(),
                full == fonts.deep_view(),
                joined@ == emitted,
                i == 0 ==> emitted =~= Seq::<char>::empty(),
                i > 0 ==> join_commas(full) =~~= emitted + join_commas_tail(full.skip(i as int)),
            decreases fonts@.len() - i,
        {
            let ghost pre = joined@;
            if i > 0 {
                push_char(&mut joined, ',');
            }
            let font = &fonts[i];
            joined.append(font.as_str());
            proof {
                assert(full.skip(i as int)[0] == full[i as int]);
                assert(full.skip(i as int).skip(1) =~~= full.skip(i + 1));
                if i == 0 {
                    emitted = full[0];
                    assert(joined@ =~= emitted);
                    assert(join_commas(full) =~~= emitted + join_commas_tail(full.skip(1)));
                } else {
                    emitted = emitted + seq![','] + full[i as int];
                    assert(joined@ =~= emitted);
                    assert(join_commas(full) =~~= emitted + join_commas_tail(full.skip(i + 1)));
                }
            }
            i += 1;
        }
        proof {
            if fonts@.len() == 0 {
                assert(join_commas(full) =~~= Seq::<char>::empty());
                assert(joined@ =~= join_commas(full));
            } else {
                assert(join_commas_tail(full.skip(full.len() as int))
                    =~~= Seq::<char>::empty());
                assert(joined@ =~= join_commas(full));
            }
        }
        let ghost pre = self.args.deep_view();
        self.args.push(String::from_str("-fn"));
        let ghost joined_v = joined@;
        self.args.push(joined);
        proof {
            assert(self.args.deep_view() =~~= pre + seq!["-fn"@, joined_v]);
        }
    }

    /// Appends `-lh <width>`.
    pub fn add_underline_width(&mut self, width: u32)
        ensures
            final(self).args.deep_view() =~~= old(self).args.deep_view() + seq![
                "-lh"@,
                spec_dec(width as nat),
            ],
    {
        let ghost pre = self.args.deep_view();
        self.args.push(String::from_str("-lh"));
        self.args.push(u64_to_dec(width as u64));
        proof {
            assert(self.args.deep_view() =~~= pre + seq!["-lh"@, spec_dec(width as nat)]);
        }
    }

    /// Appends a flag with zelbar's color syntax.
    pub fn add_color(&mut self, flag: &str, color: &Color)
        ensures
            final(self).args.deep_view() =~~= old(self).args.deep_view() + seq![
                flag@,
                zelbar_code(*color),
            ],
    {
        let ghost pre = self.args.deep_view();
        self.args.push(flag.to_owned());
        self.args.push(color.to_hex());
        proof {
            assert(self.args.deep_view() =~~= pre + seq![flag@, zelbar_code(*color)]);
        }
    }
}

impl CmdlineArgBuilder for ZelbarArgs {
    fn output(&mut self, name: &str) {
        self.add_output(name);
    }

    fn height(&mut self, height: u32) {
        self.add_height(height);
    }

    fn bottom(&mut self) {
        self.add_bottom();
    }

    fn fonts(&mut self, fonts: &Vec<String>) {
        self.add_fonts(fonts);
    }

    /// Zelbar has no window-name flag.
    fn name(&mut self, name: &str) {
    }

    fn underline_width(&mut self, width: u32) {
        self.add_underline_width(width);
    }

    fn underline_color(&mut self, color: &Color) {
        self.add_color("-lc", color);
    }

    fn background(&mut self, color: &Color) {
        self.add_color("-B", color);
    }

    fn foreground(&mut self, color: &Color) {
        self.add_color("-F", color);
    }

    fn finish(self) -> Vec<String> {
        self.args
    }
}

/// The whole lemonbar command line for the configured settings and the
/// resolved geometry, as `spec_lemon_args` fixes it.
#[verifier::rlimit(100)]
#[verifier::spinoff_prover]
fn lemon_arg_list(fc: &FileConfig, geometry: Option<(u32, u32)>) -> (r: Vec<String>)
    ensures
        r.deep_view() =~~= spec_lemon_args(
            *fc,
            match geometry {
                Option::Some(g) => seq![g],
                Option::None => Seq::empty(),
            },
        ),
{
    proof {
        reveal_strlit("-B");
        reveal_strlit("-F");
        reveal_strlit("-U");
        assert("-B"@ =~= seq!['-', 'B']);
        assert("-F"@ =~= seq!['-', 'F']);
        assert("-U"@ =~= seq!['-', 'U']);
    }
    let mut b = LemonArgs::new();
    match fc.height {
        Option::Some(h) => b.set_height(h),
        Option::None => {},
    }
    assert(b.height == height_or_default(fc.height));
    assert(b.args.deep_view() =~~= seq!["-a"@, "255"@, "-d"@]);
    let ghost mut flags: Seq<Seq<char>> = Seq::empty();
    if fc.bottom {
        b.add_bottom();
        proof {
            flags = flags + seq!["-b"@];
        }
    }
    assert(b.args.deep_view() =~~= seq!["-a"@, "255"@, "-d"@] + flags);
    b.add_fonts(&fc.fonts);
    proof {
        flags = flags + lemon_font_flags(fc.fonts.deep_view());
    }
    assert(b.args.deep_view() =~~= seq!["-a"@, "255"@, "-d"@] + flags);
    match &fc.name {
        Option::Some(n) => {
            b.add_name(n.as_str());
            proof {
                flags = flags + seq!["-n"@, n@];
            }
        },
        Option::None => {},
    }
    assert(b.args.deep_view() =~~= seq!["-a"@, "255"@, "-d"@] + flags);
    match fc.underline_width {
        Option::Some(u) => {
            b.add_underline_width(u);
            proof {
                flags = flags + seq!["-u"@, spec_dec(u as nat)];
            }
        },
        Option::None => {},
    }
    assert(b.args.deep_view() =~~= seq!["-a"@, "255"@, "-d"@] + flags);
    match &fc.background {
        Option::Some(c) => {
            b.add_color('B', c);
            proof {
                flags = flags + seq!["-B"@, lemonbar_code(*c)];
            }
        },
        Option::None => {},
    }
    assert(b.args.deep_view() =~~= seq!["-a"@, "255"@, "-d"@] + flags);
    match &fc.foreground {
        Option::Some(c) => {
            b.add_color('F', c);
            proof {
                flags = flags + seq!["-F"@, lemonbar_code(*c)];
            }
        },
        Option::None => {},
    }
    assert(b.args.deep_view() =~~= seq!["-a"@, "255"@, "-d"@] + flags);
    match &fc.underline {
        Option::Some(c) => {
            b.add_color('U', c);
            proof {
                flags = flags + seq!["-U"@, lemonbar_code(*c)];
            }
        },
        Option::None => {},
    }
    proof {
        assert(b.args.deep_view() =~~= seq!["-a"@, "255"@, "-d"@] + flags);
        assert(flags =~~= spec_lemon_flags(*fc));
    }
    match geometry {
        Option::Some((w, x)) => b.geometry(w, x),
        Option::None => {},
    }
    proof {
        assert(b.geometries@ =~= match geometry {
            Option::Some(g) => seq![g],
            Option::None => Seq::<(u32, u32)>::empty(),
        });
    }
    let r = b.done();
    proof {
        assert(r.deep_view() =~~= spec_lemon_args(
            *fc,
            match geometry {
                Option::Some(g) => seq![g],
                Option::None => Seq::empty(),
            },
        ));
    }
    r
}

/// The whole zelbar command line for the configured settings and the
/// named output, as `spec_zelbar_args` fixes it.
#[verifier::rlimit(100)]
#[verifier::spinoff_prover]
fn zelbar_arg_list(fc: &FileConfig, output: Option<&str>) -> (r: Vec<String>)
    ensures
        r.deep_view() =~~= spec_zelbar_args(
            *fc,
            match output {
                Option::Some(o) => Some(o@),
                Option::None => None,
            },
        ),
{
    let mut b = ZelbarArgs::new();
    let ghost mut flags: Seq<Seq<char>> = Seq::empty();
    match fc.height {
        Option::Some(h) => {
            b.add_height(h);
            proof {
                flags = flags + seq!["-g"@, seq!['0', ':'] + spec_dec(h as nat)];
            }
        },
        Option::None => {},
    }
    assert(b.args.deep_view() =~~= flags);
    match output {
        Option::Some(o) => {
            b.add_output(o);
            proof {
                flags = flags + seq!["-o"@, o@];
            }
        },
        Option::None => {},
    }
    assert(b.args.deep_view() =~~= flags);
    if fc.bottom {
        b.add_bottom();
        proof {
            flags = flags + seq!["-btm"@];
        }
    }
    assert(b.args.deep_view() =~~= flags);
    b.add_fonts(&fc.fonts);
    proof {
        flags = flags + seq!["-fn"@, join_commas(fc.fonts.deep_view())];
    }
    assert(b.args.deep_view() =~~= flags);
    match fc.underline_width {
        Option::Some(u) => {
            b.add_underline_width(u);
            proof {
                flags = flags + seq!["-lh"@, spec_dec(u as nat)];
            }
        },
        Option::None => {},
    }
    assert(b.args.deep_view() =~~= flags);
    match &fc.background {
        Option::Some(c) => {
            b.add_color("-B", c);
            proof {
                flags = flags + seq!["-B"@, zelbar_code(*c)];
            }
        },
        Option::None => {},
    }
    assert(b.args.deep_view() =~~= flags);
    match &fc.foreground {
        Option::Some(c) => {
            b.add_color("-F", c);
            proof {
                flags = flags + seq!["-F"@, zelbar_code(*c)];
            }
        },
        Option::None => {},
    }
    assert(b.args.deep_view() =~~= flags);
    match &fc.underline {
        Option::Some(c) => {
            b.add_color("-lc", c);
            proof {
                flags = flags + seq!["-lc"@, zelbar_code(*c)];
            }
        },
        Option::None => {},
    }
    proof {
        assert(b.args.deep_view() =~~= flags);
        assert(flags =~~= spec_zelbar_args(
            *fc,
            match output {
                Option::Some(o) => Some(o@),
                Option::None => None,
            },
        ));
    }
    b.args
}

impl GlobalConfig {
    /// The renderer's command line for one output: every configured
    /// setting in a fixed order — for lemonbar the fixed opening
    /// arguments, docking, fonts, name, underline width, colors and the
    /// resolved geometry; for zelbar its geometry, the output by name,
    /// docking, fonts, underline width and colors.
    pub fn to_arg_list(&self, output: Option<&str>, geometry: Option<(u32, u32)>) -> (r: Vec<
        String,
    >)
        ensures
            self.cmdline.program is Lemonbar ==> r.deep_view() =~~= spec_lemon_args(
                self.file_config,
                match geometry {
                    Option::Some(g) => seq![g],
                    Option::None => Seq::empty(),
                },
            ),
            self.cmdline.program is Zelbar ==> r.deep_view() =~~= spec_zelbar_args(
                self.file_config,
                match output {
                    Option::Some(o) => Some(o@),
                    Option::None => None,
                },
            ),
    {
        match self.cmdline.program {
            Program::Lemonbar => lemon_arg_list(&self.file_config, geometry),
            Program::Zelbar => zelbar_arg_list(&self.file_config, output),
        }
    }
}

} // verus!
