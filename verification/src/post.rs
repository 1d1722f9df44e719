//! The post of the robot of the day.

use crate::model::DailyRobot;
use crate::sbb_data::model::{full_name_spec, LINK_BASE};
use crate::text::{
    decimal_int, lines_spec, push_char, push_decimal_int, push_str, split_lines, trim, trim_spec,
    views,
};
use vstd::prelude::*;

verus! {

/// The lines that count of a list of lines: each without the whitespace
/// around it, and without those of which nothing is left.
pub open spec fn kept_lines(lines: Seq<Seq<char>>) -> Seq<Seq<char>>
    decreases lines.len(),
{
    if lines.len() == 0 {
        seq![]
    } else if trim_spec(lines.last()).len() == 0 {
        kept_lines(lines.drop_last())
    } else {
        kept_lines(lines.drop_last()).push(trim_spec(lines.last()))
    }
}

/// The lines of a text that hold more than whitespace, each without the
/// whitespace around it.
pub fn lines<'a>(text: &'a str) -> (r: Vec<&'a str>)
    ensures
        views(r@) == kept_lines(lines_spec(text@)),
{
    let all = split_lines(text);
    let mut kept: Vec<&'a str> = Vec::new();
    let mut i: usize = 0;
    assert(views(kept@) =~= kept_lines(views(all@).take(0)));
    while i < all.len()
        invariant
            i <= all.len(),
            views(kept@) == kept_lines(views(all@).take(i as int)),
        decreases all.len() - i,
    {
        let line = trim(all[i]);
        proof {
            let t = views(all@).take(i + 1);
            assert(t.last() == all@[i as int]@);
            assert(t.drop_last() =~= views(all@).take(i as int));
        }
        let ghost before = views(kept@);
        if !line.is_empty() {
            kept.push(line);
            assert(views(kept@) =~= before.push(line@));
        }
        i = i + 1;
    }
    assert(views(all@).take(all.len() as int) =~= views(all@));
    kept
}

/// The line at `at`, or the empty text where there is no such line.
pub fn pick<'a>(lines: &Vec<&'a str>, at: usize) -> (r: &'a str)
    ensures
        r@ == if at < lines@.len() {
            lines@[at as int]@
        } else {
            Seq::empty()
        },
{
    if at < lines.len() {
        lines[at]
    } else {
        proof {
            reveal_strlit("");
        }
        assert(""@ =~= Seq::<char>::empty());
        ""
    }
}

/// The line that warns of the content of a post, where there is a warning.
pub open spec fn warning_line(content_warning: Option<String>) -> Seq<char> {
    match content_warning {
        Some(w) => "[CW: "@ + w@ + "]\n"@,
        None => Seq::empty(),
    }
}

/// The text of the post of the day: the content warning of the robot in
/// square brackets where it has one, the date, a greeting and an
/// introduction, the number and the name of the robot, and the address of
/// the post that announced it.
pub open spec fn daily_message_spec(
    robot: DailyRobot,
    today: Seq<char>,
    greeting: Seq<char>,
    intro: Seq<char>,
) -> Seq<char> {
    warning_line(robot.content_warning) + today + "\n"@ + greeting + " "@ + intro + " #"@ + decimal_int(robot.id.number as int)
        + ", "@ + full_name_spec(robot.prefix@, robot.suffix@, robot.plural) + "!\n"@ + LINK_BASE@
        + decimal_int(robot.tweet_id as int)
}

/// Writes the post of the day for a robot.
pub fn daily_message(robot: &DailyRobot, today: &str, greeting: &str, intro: &str) -> (r: String)
    ensures
        r@ == daily_message_spec(*robot, today@, greeting@, intro@),
{
    let mut message = String::new();
    match &robot.content_warning {
        Some(w) => {
            push_str(&mut message, "[CW: ");
            push_str(&mut message, w.as_str());
            push_str(&mut message, "]\n");
        },
        None => {},
    }
    assert(message@ =~= warning_line(robot.content_warning));
    push_str(&mut message, today);
    push_char(&mut message, '\n');
    push_str(&mut message, greeting);
    push_char(&mut message, ' ');
    push_str(&mut message, intro);
    push_str(&mut message, " #");
    push_decimal_int(&mut message, robot.id.number as i64);
    push_str(&mut message, ", ");
    push_str(&mut message, robot.full_name().as_str());
    push_str(&mut message, "!\n");
    push_str(&mut message, robot.tweet_url().as_str());
    proof {
        reveal_strlit("\n");
        reveal_strlit(" ");
        let warning = warning_line(robot.content_warning);
        assert(warning + today@ + "\n"@ =~= (warning + today@).push('\n'));
        assert(warning + today@ + "\n"@ + greeting@ + " "@ =~= (warning + today@ + "\n"@
            + greeting@).push(' '));
        assert(warning + today@ + "\n"@ + greeting@ + " "@ + intro@ + " #"@ + decimal_int(
            robot.id.number as int,
        ) + ", "@ + full_name_spec(robot.prefix@, robot.suffix@, robot.plural) + "!\n"@ + (
        LINK_BASE@ + decimal_int(robot.tweet_id as int)) =~= daily_message_spec(
            *robot,
            today@,
            greeting@,
            intro@,
        ));
    }
    message
}

} // verus!
