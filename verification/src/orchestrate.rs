//! The orchestrator's decisions: building the text block from the task
//! lists, classifying the desktop environment and theme, and shaping the
//! strings exchanged with the desktop's wallpaper settings. The caller
//! performs the external queries and hands their answers in as plain
//! values.

use vstd::prelude::*;

use crate::strings::{contains_str, join_char, spec_contains, spec_dec, spec_join, u64_to_dec};
use crate::{Theme, WallError};

verus! {

/// The desktop environments a run can identify.
#[derive(Clone, Copy, Debug, PartialEq, Eq, Structural)]
pub enum DesktopKind {
    Gnome,
    Unknown,
}

/// Classifies the desktop-environment name as reported by the session.
pub fn desktop_kind(name: &str) -> (r: DesktopKind)
    ensures
        r == DesktopKind::Gnome <==> name@ == seq!['G', 'N', 'O', 'M', 'E'],
{
    let gnome = "GNOME";
    proof {
        reveal_strlit("GNOME");
        assert(gnome@ =~= seq!['G', 'N', 'O', 'M', 'E']);
    }
    if name.to_owned() == gnome.to_owned() {
        DesktopKind::Gnome
    } else {
        DesktopKind::Unknown
    }
}

/// Classifies a color-scheme setting string: any setting that mentions
/// "dark" selects the dark theme, anything else defaults to light.
pub fn theme_from_setting(setting: &str) -> (r: Theme)
    ensures
        r == Theme::Dark <==> spec_contains(setting@, seq!['d', 'a', 'r', 'k']),
{
    let pat = "dark";
    proof {
        reveal_strlit("dark");
        assert(pat@ =~= seq!['d', 'a', 'r', 'k']);
    }
    if contains_str(setting, pat) {
        Theme::Dark
    } else {
        Theme::Light
    }
}

/// The settings key holding the active wallpaper for the given theme.
pub fn picture_key(theme: Theme) -> (r: &'static str)
    ensures
        theme == Theme::Dark ==> r@ == "picture-uri-dark"@,
        theme == Theme::Light ==> r@ == "picture-uri"@,
{
    match theme {
        Theme::Dark => "picture-uri-dark",
        Theme::Light => "picture-uri",
    }
}

/// Strips the URI scheme prefix and the trailing terminator bytes from a
/// raw wallpaper-setting value (a quoted `file://` URI followed by a
/// newline): the first eight and last two characters. A value too short to
/// carry both is rejected.
pub fn strip_wallpaper_uri(raw: &str) -> (r: Option<String>)
    ensures
        match r {
            Some(s) => raw@.len() >= 10 && s@ == raw@.subrange(8, raw@.len() - 2),
            None => raw@.len() < 10,
        },
{
    let n = raw.unicode_len();
    if n < 10 {
        return None;
    }
    Some(raw.substring_char(8, n - 2).to_owned())
}

/// The URI under which the desktop is asked to activate a wallpaper path.
pub fn wallpaper_uri_for(path: &str) -> (r: String)
    ensures
        r@ == "file://"@ + path@,
{
    "file://".to_owned().concat(path)
}

/// What a run owes after a render attempt.
#[derive(Clone, Copy, Debug, PartialEq, Eq, Structural)]
pub enum AfterRender {
    /// The render succeeded: activate the annotated wallpaper.
    Activate,
    /// The render failed recoverably: copy the original over the annotated
    /// slot so it still holds a valid image, report, then activate that
    /// copy.
    FallBackThenActivate,
    /// The image is too small to annotate: fatal, nothing was written and
    /// nothing may be, so there is nothing to activate.
    Abort,
}

/// Routes the render outcome: success activates; a too-small image aborts
/// with no file touched; any other render failure falls back to the
/// pristine original before activating.
pub fn after_render(render: &Result<(), WallError>) -> (a: AfterRender)
    ensures
        render is Ok <==> a == AfterRender::Activate,
        (render matches Err(e) && e == WallError::ImageTooSmall) <==> a == AfterRender::Abort,
        (render matches Err(e) && e != WallError::ImageTooSmall) <==> a
            == AfterRender::FallBackThenActivate,
{
    match render {
        Ok(()) => AfterRender::Activate,
        Err(e) => {
            if *e == WallError::ImageTooSmall {
                AfterRender::Abort
            } else {
                AfterRender::FallBackThenActivate
            }
        },
    }
}

/// The numbered presentation of a task list: line `i` is `i+1` in decimal,
/// a dot and a space, then the item.
pub open spec fn spec_numbered(items: Seq<Seq<char>>) -> Seq<Seq<char>> {
    Seq::new(items.len(), |i: int| spec_dec(i + 1) + seq!['.', ' '] + items[i])
}

/// The logical lines of the annotation: a "TODOS:" section when there are
/// todos and a "DONES:" section when there are dones, each section headed
/// and blank-line separated, items numbered from one.
pub open spec fn spec_block_lines(todos: Seq<Seq<char>>, dones: Seq<Seq<char>>) -> Seq<Seq<char>> {
    let t = if todos.len() > 0 {
        seq![seq!['T', 'O', 'D', 'O', 'S', ':'], Seq::<char>::empty()] + spec_numbered(todos)
    } else {
        Seq::<Seq<char>>::empty()
    };
    let d = if dones.len() > 0 {
        seq![Seq::<char>::empty(), seq!['D', 'O', 'N', 'E', 'S', ':'], Seq::<char>::empty()]
            + spec_numbered(dones)
    } else {
        Seq::<Seq<char>>::empty()
    };
    t + d
}

/// The whole annotation text: the logical lines joined with newlines.
pub open spec fn spec_text_block(todos: Seq<Seq<char>>, dones: Seq<Seq<char>>) -> Seq<char> {
    spec_join(spec_block_lines(todos, dones), '\n')
}

fn push_numbered(lines_in: Vec<String>, items: &Vec<String>) -> (r: Vec<String>)
    ensures
        r@.map_values(|t: String| t@) == lines_in@.map_values(|t: String| t@) + spec_numbered(
            items@.map_values(|t: String| t@),
        ),
{
    let mut lines = lines_in;
    let ghost base = lines@.map_values(|t: String| t@);
    let ghost nm = spec_numbered(items@.map_values(|t: String| t@));
    let dot_sp = ". ";
    proof {
        reveal_strlit(". ");
        assert(dot_sp@ =~= seq!['.', ' ']);
    }
    let mut i: usize = 0;
    while i < items.len()
        invariant
            dot_sp@ == seq!['.', ' '],
            nm == spec_numbered(items@.map_values(|t: String| t@)),
            i <= items@.len(),
            lines@.map_values(|t: String| t@) == base + nm.take(i as int),
        decreases items@.len() - i,
    {
        let number = u64_to_dec((i as u64) + 1);
        let line = number.concat(dot_sp).concat(items[i].as_str());
        proof {
            assert(line@ =~= nm[i as int]);
        }
        let ghost prev = lines@;
        let ghost line_v = line@;
        lines.push(line);
        proof {
            assert(lines@ == prev.push(line));
            let target = base + nm.take(i as int + 1);
            assert(prev.map_values(|t: String| t@) == base + nm.take(i as int));
            assert(prev.map_values(|t: String| t@).len() == prev.len());
            assert(nm.len() == items@.len());
            assert(nm.take(i as int).len() == i);
            assert(prev.len() == base.len() + i);
            assert(lines@.len() == prev.len() + 1);
            assert(target.len() == base.len() + i + 1);
            assert forall|k: int| 0 <= k < lines@.len() implies lines@.map_values(|t: String| t@)[k]
                == target[k] by {
                if k < prev.len() {
                    assert(lines@[k] == prev[k]);
                    assert(prev.map_values(|t: String| t@)[k] == (base + nm.take(i as int))[k]);
                } else {
                    assert(lines@[k] == prev.push(line)[prev.len() as int]);
                    assert(target[k] == nm[i as int]);
                }
            }
            assert(lines@.map_values(|t: String| t@) =~= target);
        }
        i = i + 1;
    }
    proof {
        assert(nm.take(items@.len() as int) =~= nm);
    }
    lines
}

/// Builds the annotation text from the two task lists. Returns `None`
/// exactly when both lists are empty: the run is then a no-op and nothing
/// may be rendered, written or activated.
pub fn build_text_block(todos: &Vec<String>, dones: &Vec<String>) -> (r: Option<String>)
    ensures
        r is None <==> todos@.len() == 0 && dones@.len() == 0,
        match r {
            Some(s) => s@ == spec_text_block(
                todos@.map_values(|t: String| t@),
                dones@.map_values(|t: String| t@),
            ),
            None => true,
        },
{
    if todos.len() == 0 && dones.len() == 0 {
        return None;
    }
    let ghost tv = todos@.map_values(|t: String| t@);
    let ghost dv = dones@.map_values(|t: String| t@);
    let mut lines: Vec<String> = Vec::new();
    if todos.len() > 0 {
        let header = "TODOS:";
        proof {
            reveal_strlit("TODOS:");
            assert(header@ =~= seq!['T', 'O', 'D', 'O', 'S', ':']);
        }
        lines.push(header.to_owned());
        lines.push(String::new());
        lines = push_numbered(lines, todos);
        proof {
            assert(lines@.map_values(|t: String| t@) =~= seq![
                seq!['T', 'O', 'D', 'O', 'S', ':'],
                Seq::<char>::empty(),
            ] + spec_numbered(tv));
        }
    }
    let ghost t_part = lines@.map_values(|t: String| t@);
    if dones.len() > 0 {
        let header = "DONES:";
        proof {
            reveal_strlit("DONES:");
            assert(header@ =~= seq!['D', 'O', 'N', 'E', 'S', ':']);
        }
        lines.push(String::new());
        lines.push(header.to_owned());
        lines.push(String::new());
        lines = push_numbered(lines, dones);
        proof {
            assert(lines@.map_values(|t: String| t@) =~= t_part + (seq![
                Seq::<char>::empty(),
                seq!['D', 'O', 'N', 'E', 'S', ':'],
                Seq::<char>::empty(),
            ] + spec_numbered(dv)));
        }
    }
    proof {
        assert(lines@.map_values(|t: String| t@) =~= spec_block_lines(tv, dv));
    }
    let nl = "\n";
    proof {
        reveal_strlit("\n");
        assert(nl@ =~= seq!['\n']);
    }
    Some(join_char(&lines, '\n', nl))
}

} // verus!
