//! The user and group databases: one record per line, fields separated by
//! `:`.
use vstd::prelude::*;
use crate::eunix::fs::Id;
use crate::text::{strip_cr, lemma_decimal_digits, lacks_char, lemma_split_join, lemma_parse_decimal, lemma_join_lacks, is_digit, views, split_on, split_lines, join_with, decimal, decimal_string, parse_unsigned, parse_unsigned_str, split_char, lines, join, regex_is_match, regex_matches};

verus! {

/// The shape a user line must have: seven fields.
pub const PASSWD_SHAPE: &'static str = "^.*:.*:.*:.*:.*:.*:.*$";

/// The shape a group line must have: three fields, as `name:gid:users`.
pub const GROUP_SHAPE: &'static str = "^.*:.*:.*$";

/// Why a line was left out.
#[derive(Debug, Clone, Copy, PartialEq, Eq, Structural)]
pub enum ParseError {
    BadLine,
    InvalidUid,
    InvalidGid,
    InvalidUserList,
}

/// A user: serialized as `name:password:uid:gid:comment:home:shell`.
#[derive(Debug)]
pub struct Passwd {
    pub name: String,
    pub password: String,
    pub uid: Id,
    pub gid: Id,
    pub comment: String,
    pub home: String,
    pub shell: String,
}

/// A user as plain values.
pub type PasswdView = (Seq<char>, Seq<char>, Id, Id, Seq<char>, Seq<char>, Seq<char>);

impl View for Passwd {
    type V = PasswdView;

    open spec fn view(&self) -> PasswdView {
        (self.name@, self.password@, self.uid, self.gid, self.comment@, self.home@, self.shell@)
    }
}

/// Field `i` of a split line, or nothing where the line has fewer.
pub open spec fn field(pieces: Seq<Seq<char>>, i: int) -> Seq<char> {
    if i < pieces.len() {
        pieces[i]
    } else {
        Seq::empty()
    }
}

/// The line of a user.
pub open spec fn passwd_text(p: PasswdView) -> Seq<char> {
    p.0 + ":"@ + p.1 + ":"@ + decimal(p.2 as nat) + ":"@ + decimal(p.3 as nat) + ":"@ + p.4 + ":"@ + p.5 + ":"@ + p.6
}

/// The fields of a user's line, in order.
pub open spec fn passwd_fields(p: PasswdView) -> Seq<Seq<char>> {
    seq![p.0, p.1, decimal(p.2 as nat), decimal(p.3 as nat), p.4, p.5, p.6]
}

/// A user's line is its fields joined with `:`.
proof fn lemma_passwd_text_joins(p: PasswdView)
    ensures
        passwd_text(p) == join_with(passwd_fields(p), seq![':']),
{
    reveal_strlit(":");
    let f = passwd_fields(p);
    let sep = seq![':'];
    assert(":"@ =~= sep);
    assert forall|k: int| 2 <= k <= 7 implies #[trigger] join_with(f.take(k), sep) == join_with(f.take(k - 1), sep)
        + sep + f[k - 1] by {
        assert(f.take(k).drop_last() =~= f.take(k - 1));
        assert(f.take(k).last() == f[k - 1]);
    }
    assert(join_with(f.take(1), sep) == f[0]);
    assert(join_with(f.take(2), sep) == p.0 + sep + p.1);
    assert(join_with(f.take(3), sep) == p.0 + sep + p.1 + sep + decimal(p.2 as nat));
    assert(join_with(f.take(4), sep) == p.0 + sep + p.1 + sep + decimal(p.2 as nat) + sep + decimal(p.3 as nat));
    assert(join_with(f.take(5), sep) == p.0 + sep + p.1 + sep + decimal(p.2 as nat) + sep + decimal(p.3 as nat) + sep
        + p.4);
    assert(join_with(f.take(6), sep) == p.0 + sep + p.1 + sep + decimal(p.2 as nat) + sep + decimal(p.3 as nat) + sep
        + p.4 + sep + p.5);
    assert(join_with(f.take(7), sep) == p.0 + sep + p.1 + sep + decimal(p.2 as nat) + sep + decimal(p.3 as nat) + sep
        + p.4 + sep + p.5 + sep + p.6);
    assert(f.take(7) =~= f);
}

/// A user whose text fields hold no `:` reads back from its own line, when
/// that line is taken to have the shape of a user line.
pub proof fn lemma_passwd_round_trip(p: PasswdView)
    requires
        lacks_char(p.0, ':'),
        lacks_char(p.1, ':'),
        lacks_char(p.4, ':'),
        lacks_char(p.5, ':'),
        lacks_char(p.6, ':'),
    ensures
        passwd_of_line(passwd_text(p), true) == Ok::<PasswdView, ParseError>(p),
{
    let f = passwd_fields(p);
    lemma_passwd_text_joins(p);
    lemma_parse_decimal(p.2 as nat, 0xFFFF);
    lemma_parse_decimal(p.3 as nat, 0xFFFF);
    assert(!is_digit(':'));
    assert forall|i: int| 0 <= i < f.len() implies lacks_char(#[trigger] f[i], ':') by {}
    lemma_split_join(f, ':');
    let pieces = split_on(passwd_text(p), ':');
    assert(pieces == f);
    assert(field(pieces, 0) == p.0);
    assert(field(pieces, 6) == p.6);
}

/// The user a line holds, given whether it has the shape of a user line;
/// fields past the seventh are ignored, missing ones are empty.
pub open spec fn passwd_of_line(line: Seq<char>, shaped: bool) -> Result<PasswdView, ParseError> {
    let pieces = split_on(line, ':');
    if !shaped {
        Err(ParseError::BadLine)
    } else if pieces.len() <= 2 || parse_unsigned(pieces[2], 0xFFFF) is None {
        Err(ParseError::InvalidUid)
    } else if pieces.len() <= 3 || parse_unsigned(pieces[3], 0xFFFF) is None {
        Err(ParseError::InvalidGid)
    } else {
        Ok((
            field(pieces, 0),
            field(pieces, 1),
            parse_unsigned(pieces[2], 0xFFFF).unwrap() as Id,
            parse_unsigned(pieces[3], 0xFFFF).unwrap() as Id,
            field(pieces, 4),
            field(pieces, 5),
            field(pieces, 6),
        ))
    }
}

/// The users the lines hold, in order, each line checked against the user
/// shape by fancy_regex; lines that hold none are left out.
pub open spec fn parsed_passwds(lines: Seq<Seq<char>>) -> Seq<PasswdView>
    decreases lines.len(),
{
    if lines.len() == 0 {
        Seq::empty()
    } else {
        let rest = parsed_passwds(lines.drop_last());
        match passwd_of_line(lines.last(), regex_is_match(PASSWD_SHAPE@, lines.last()) == Some(true)) {
            Ok(p) => rest.push(p),
            Err(_) => rest,
        }
    }
}

/// Field `i` of the split line, or an empty string.
fn field_string(pieces: &Vec<String>, i: usize) -> (s: String)
    ensures
        s@ == field(views(pieces@), i as int),
{
    if i < pieces.len() {
        pieces[i].clone()
    } else {
        String::new()
    }
}

impl Passwd {
    /// Reads the user of one line, given whether the line has the shape of
    /// a user line.
    pub fn parse_passwd_line(line: &str, shaped: bool) -> (result: Result<Passwd, ParseError>)
        ensures
            match (result, passwd_of_line(line@, shaped)) {
                (Ok(p), Ok(v)) => p@ == v,
                (Err(e), Err(f)) => e == f,
                _ => false,
            },
    {
        if !shaped {
            return Err(ParseError::BadLine);
        }
        let pieces = split_char(line, ':');
        if pieces.len() <= 2 {
            return Err(ParseError::InvalidUid);
        }
        let uid = match parse_unsigned_str(pieces[2].as_str(), 0xFFFF) {
            Some(v) => v as Id,
            None => {
                return Err(ParseError::InvalidUid);
            },
        };
        if pieces.len() <= 3 {
            return Err(ParseError::InvalidGid);
        }
        let gid = match parse_unsigned_str(pieces[3].as_str(), 0xFFFF) {
            Some(v) => v as Id,
            None => {
                return Err(ParseError::InvalidGid);
            },
        };
        Ok(Passwd {
            name: field_string(&pieces, 0),
            password: field_string(&pieces, 1),
            uid,
            gid,
            comment: field_string(&pieces, 4),
            home: field_string(&pieces, 5),
            shell: field_string(&pieces, 6),
        })
    }

    /// Parses `name:password:uid:gid:comment:home:shell` lines; lines that
    /// do not hold a user are left out.
    pub fn parse_passwds(string: &str) -> (passwds: Vec<Passwd>)
        ensures
            passwds@.map_values(|p: Passwd| p@) == parsed_passwds(split_lines(string@)),
    {
        let all = lines(string);
        let ghost ls = views(all@);
        let mut passwds: Vec<Passwd> = Vec::new();
        let mut i: usize = 0;
        while i < all.len()
            invariant
                ls == views(all@),
                ls == split_lines(string@),
                i <= all@.len(),
                passwds@.map_values(|p: Passwd| p@) == parsed_passwds(ls.take(i as int)),
            decreases all.len() - i,
        {
            let line = all[i].as_str();
            let shaped = match regex_matches(PASSWD_SHAPE, line) {
                Some(m) => m,
                None => false,
            };
            proof {
                assert(ls.take(i + 1).drop_last() =~= ls.take(i as int));
                assert(ls.take(i + 1).last() == line@);
            }
            match Passwd::parse_passwd_line(line, shaped) {
                Ok(p) => {
                    let ghost before = passwds@;
                    passwds.push(p);
                    proof {
                        assert(passwds@.map_values(|p: Passwd| p@) =~= before.map_values(|p: Passwd| p@).push(p@));
                    }
                },
                Err(_) => {},
            }
            i = i + 1;
        }
        proof {
            assert(ls.take(all@.len() as int) =~= ls);
        }
        passwds
    }

    /// The user's line.
    pub fn to_string(&self) -> (text: String)
        ensures
            text@ == passwd_text(self@),
    {
        let mut text = self.name.clone();
        text.append(":");
        text.append(self.password.as_str());
        text.append(":");
        text.append(decimal_string(self.uid as u64).as_str());
        text.append(":");
        text.append(decimal_string(self.gid as u64).as_str());
        text.append(":");
        text.append(self.comment.as_str());
        text.append(":");
        text.append(self.home.as_str());
        text.append(":");
        text.append(self.shell.as_str());
        proof {
            reveal_strlit(":");
        }
        text
    }

    /// The users' lines, separated by line feeds.
    pub fn serialize_passwds(passwds: &[Passwd]) -> (text: String)
        ensures
            text@ == join_with(passwds@.map_values(|p: Passwd| passwd_text(p@)), "\n"@),
    {
        let mut texts: Vec<String> = Vec::new();
        let mut i: usize = 0;
        while i < passwds.len()
            invariant
                i <= passwds@.len(),
                views(texts@) == passwds@.take(i as int).map_values(|p: Passwd| passwd_text(p@)),
            decreases passwds.len() - i,
        {
            let t = passwds[i].to_string();
            let ghost before = texts@;
            texts.push(t);
            proof {
                assert(views(texts@) =~= views(before).push(t@));
                assert(passwds@.take(i + 1).map_values(|p: Passwd| passwd_text(p@)) =~= passwds@.take(i as int).map_values(
                    |p: Passwd| passwd_text(p@),
                ).push(passwd_text(passwds@[i as int]@)));
            }
            i = i + 1;
        }
        proof {
            assert(passwds@.take(passwds@.len() as int) =~= passwds@);
        }
        join(&texts, "\n")
    }
}

} // verus!

verus! {

/// A group: serialized as `name:gid:user1,user2,user3`.
#[derive(Debug)]
pub struct Group {
    pub name: String,
    pub gid: Id,
    pub user_list: Vec<String>,
}

/// A group as plain values.
pub type GroupView = (Seq<char>, Id, Seq<Seq<char>>);

impl View for Group {
    type V = GroupView;

    open spec fn view(&self) -> GroupView {
        (self.name@, self.gid, views(self.user_list@))
    }
}

/// The line of a group.
pub open spec fn group_text(g: GroupView) -> Seq<char> {
    g.0 + ":"@ + decimal(g.1 as nat) + ":"@ + join_with(g.2, ","@)
}

/// A group whose name holds no `:`, with at least one member and members
/// free of `:` and `,`, reads back from its own line, when that line is
/// taken to have the shape of a group line.
pub proof fn lemma_group_round_trip(g: GroupView)
    requires
        lacks_char(g.0, ':'),
        g.2.len() >= 1,
        forall|i: int| 0 <= i < g.2.len() ==> lacks_char(#[trigger] g.2[i], ':') && lacks_char(g.2[i], ','),
    ensures
        group_of_line(group_text(g), true) == Ok::<GroupView, ParseError>(g),
{
    reveal_strlit(":");
    reveal_strlit(",");
    let colon = seq![':'];
    let comma = seq![','];
    assert(":"@ =~= colon);
    assert(","@ =~= comma);
    let users = join_with(g.2, comma);
    assert(lacks_char(comma, ':'));
    lemma_join_lacks(g.2, comma, ':');
    lemma_parse_decimal(g.1 as nat, 0xFFFF);
    assert(!is_digit(':'));
    let f = seq![g.0, decimal(g.1 as nat), users];
    assert(f.take(2).drop_last() =~= f.take(1));
    assert(f.take(3).drop_last() =~= f.take(2));
    assert(f.take(3) =~= f);
    assert(join_with(f.take(1), colon) == g.0);
    assert(join_with(f.take(2), colon) == g.0 + colon + decimal(g.1 as nat));
    assert(group_text(g) == join_with(f, colon));
    assert forall|i: int| 0 <= i < f.len() implies lacks_char(#[trigger] f[i], ':') by {}
    lemma_split_join(f, ':');
    lemma_split_join(g.2, ',');
    let pieces = split_on(group_text(g), ':');
    assert(pieces == f);
    assert(field(pieces, 2) == users);
}

/// The group a line holds, given whether it has the shape of a group line:
/// the name, the number in the second field, and the third field split at
/// commas.
pub open spec fn group_of_line(line: Seq<char>, shaped: bool) -> Result<GroupView, ParseError> {
    let pieces = split_on(line, ':');
    if !shaped {
        Err(ParseError::BadLine)
    } else if pieces.len() <= 1 {
        Err(ParseError::InvalidUid)
    } else if parse_unsigned(pieces[1], 0xFFFF) is None {
        Err(ParseError::InvalidGid)
    } else {
        Ok((field(pieces, 0), parse_unsigned(pieces[1], 0xFFFF).unwrap() as Id, split_on(field(pieces, 2), ',')))
    }
}

/// The groups the lines hold, in order, each line checked against the group
/// shape by fancy_regex; lines that hold none are left out.
pub open spec fn parsed_groups(lines: Seq<Seq<char>>) -> Seq<GroupView>
    decreases lines.len(),
{
    if lines.len() == 0 {
        Seq::empty()
    } else {
        let rest = parsed_groups(lines.drop_last());
        match group_of_line(lines.last(), regex_is_match(GROUP_SHAPE@, lines.last()) == Some(true)) {
            Ok(g) => rest.push(g),
            Err(_) => rest,
        }
    }
}

impl Group {
    /// Reads the group of one line, given whether the line has the shape of
    /// a group line.
    pub fn parse_group_line(line: &str, shaped: bool) -> (result: Result<Group, ParseError>)
        ensures
            match (result, group_of_line(line@, shaped)) {
                (Ok(g), Ok(v)) => g@ == v,
                (Err(e), Err(f)) => e == f,
                _ => false,
            },
    {
        if !shaped {
            return Err(ParseError::BadLine);
        }
        let pieces = split_char(line, ':');
        if pieces.len() <= 1 {
            return Err(ParseError::InvalidUid);
        }
        let gid = match parse_unsigned_str(pieces[1].as_str(), 0xFFFF) {
            Some(v) => v as Id,
            None => {
                return Err(ParseError::InvalidGid);
            },
        };
        let users = field_string(&pieces, 2);
        let user_list = split_char(users.as_str(), ',');
        Ok(Group { name: field_string(&pieces, 0), gid, user_list })
    }

    /// Parses `name:gid:users` lines checked against the group shape; lines
    /// that do not hold a group are left out.
    pub fn parse_groups(string: &str) -> (groups: Vec<Group>)
        ensures
            groups@.map_values(|g: Group| g@) == parsed_groups(split_lines(string@)),
    {
        let all = lines(string);
        let ghost ls = views(all@);
        let mut groups: Vec<Group> = Vec::new();
        let mut i: usize = 0;
        while i < all.len()
            invariant
                ls == views(all@),
                ls == split_lines(string@),
                i <= all@.len(),
                groups@.map_values(|g: Group| g@) == parsed_groups(ls.take(i as int)),
            decreases all.len() - i,
        {
            let line = all[i].as_str();
            let shaped = match regex_matches(GROUP_SHAPE, line) {
                Some(m) => m,
                None => false,
            };
            proof {
                assert(ls.take(i + 1).drop_last() =~= ls.take(i as int));
                assert(ls.take(i + 1).last() == line@);
            }
            match Group::parse_group_line(line, shaped) {
                Ok(g) => {
                    let ghost before = groups@;
                    groups.push(g);
                    proof {
                        assert(groups@.map_values(|g: Group| g@) =~= before.map_values(|g: Group| g@).push(g@));
                    }
                },
                Err(_) => {},
            }
            i = i + 1;
        }
        proof {
            assert(ls.take(all@.len() as int) =~= ls);
        }
        groups
    }

    /// The group's line.
    pub fn to_string(&self) -> (text: String)
        ensures
            text@ == group_text(self@),
    {
        let users = join(&self.user_list, ",");
        let mut text = self.name.clone();
        text.append(":");
        text.append(decimal_string(self.gid as u64).as_str());
        text.append(":");
        text.append(users.as_str());
        proof {
            reveal_strlit(":");
        }
        text
    }

    /// The groups' lines, separated by line feeds.
    pub fn serialize_groups(groups: &[Group]) -> (text: String)
        ensures
            text@ == join_with(groups@.map_values(|g: Group| group_text(g@)), "\n"@),
    {
        let mut texts: Vec<String> = Vec::new();
        let mut i: usize = 0;
        while i < groups.len()
            invariant
                i <= groups@.len(),
                views(texts@) == groups@.take(i as int).map_values(|g: Group| group_text(g@)),
            decreases groups.len() - i,
        {
            let t = groups[i].to_string();
            let ghost before = texts@;
            texts.push(t);
            proof {
                assert(views(texts@) =~= views(before).push(t@));
                assert(groups@.take(i + 1).map_values(|g: Group| group_text(g@)) =~= groups@.take(i as int).map_values(
                    |g: Group| group_text(g@),
                ).push(group_text(groups@[i as int]@)));
            }
            i = i + 1;
        }
        proof {
            assert(groups@.take(groups@.len() as int) =~= groups@);
        }
        join(&texts, "\n")
    }
}

/// A group line holds no character that its name and members lack, other
/// than `:`, `,` and digits.
proof fn lemma_group_text_lacks(g: GroupView, c: char)
    requires
        c != ':' && c != ',' && !is_digit(c),
        lacks_char(g.0, c),
        forall|i: int| 0 <= i < g.2.len() ==> lacks_char(#[trigger] g.2[i], c),
    ensures
        lacks_char(group_text(g), c),
{
    reveal_strlit(":");
    reveal_strlit(",");
    assert(","@ =~= seq![',']);
    assert(lacks_char(","@, c));
    lemma_join_lacks(g.2, ","@, c);
    lemma_decimal_digits(g.1 as nat);
    let d = decimal(g.1 as nat);
    assert(lacks_char(d, c)) by {
        assert forall|k: int| 0 <= k < d.len() implies d[k] != c by {
            assert(is_digit(d[k]));
        }
    }
    assert(":"@ =~= seq![':']);
    let t = group_text(g);
    assert forall|k: int| 0 <= k < t.len() implies t[k] != c by {
        let a = g.0 + ":"@;
        let b = a + d;
        let e = b + ":"@;
        assert(t == e + join_with(g.2, ","@));
        if k < e.len() {
            if k < b.len() {
                if k < a.len() {
                    if k < g.0.len() {
                        assert(t[k] == g.0[k]);
                    }
                } else {
                    assert(t[k] == d[k - a.len()]);
                }
            }
        } else {
            assert(t[k] == join_with(g.2, ","@)[k - e.len()]);
        }
    }
}

/// Groups whose names hold no `:`, line feed or carriage return, each with
/// at least one member free of those and of `,`, read back from the text
/// that writes them, where fancy_regex takes each of their lines to have
/// the shape of a group line.
pub proof fn lemma_groups_round_trip(gs: Seq<GroupView>)
    requires
        forall|i: int| 0 <= i < gs.len() ==> {
            let g = #[trigger] gs[i];
            &&& lacks_char(g.0, ':') && lacks_char(g.0, '\n') && lacks_char(g.0, '\r')
            &&& g.2.len() >= 1
            &&& forall|j: int| 0 <= j < g.2.len() ==> lacks_char(#[trigger] g.2[j], ':') && lacks_char(g.2[j], ',')
                && lacks_char(g.2[j], '\n') && lacks_char(g.2[j], '\r')
            &&& regex_is_match(GROUP_SHAPE@, group_text(g)) == Some(true)
        },
    ensures
        parsed_groups(split_lines(join_with(gs.map_values(|g: GroupView| group_text(g)), "\n"@))) == gs,
{
    reveal_strlit("\n");
    assert("\n"@ =~= seq!['\n']);
    let ts = gs.map_values(|g: GroupView| group_text(g));
    assert forall|i: int| 0 <= i < ts.len() implies lacks_char(#[trigger] ts[i], '\n') && lacks_char(ts[i], '\r')
        && ts[i].len() > 0 && strip_cr(ts[i]) == ts[i] by {
        let g = gs[i];
        lemma_group_text_lacks(g, '\n');
        lemma_group_text_lacks(g, '\r');
        reveal_strlit(":");
        assert(ts[i].len() >= 1);
        assert(ts[i].last() != '\r');
    }
    if ts.len() == 0 {
        assert(split_on(Seq::<char>::empty(), '\n') =~= seq![Seq::<char>::empty()]) by {
            lemma_split_join(seq![Seq::<char>::empty()], '\n');
        }
        assert(split_lines(Seq::<char>::empty()) =~= Seq::<Seq<char>>::empty());
        assert(parsed_groups(Seq::<Seq<char>>::empty()) =~= gs);
    } else {
        lemma_split_join(ts, '\n');
        assert(split_lines(join_with(ts, "\n"@)) =~= ts);
        lemma_parsed_groups_of_lines(gs);
    }
}

/// The lines of well-made groups parse back to those groups.
proof fn lemma_parsed_groups_of_lines(gs: Seq<GroupView>)
    requires
        forall|i: int| 0 <= i < gs.len() ==> {
            let g = #[trigger] gs[i];
            &&& lacks_char(g.0, ':')
            &&& g.2.len() >= 1
            &&& forall|j: int| 0 <= j < g.2.len() ==> lacks_char(#[trigger] g.2[j], ':') && lacks_char(g.2[j], ',')
            &&& regex_is_match(GROUP_SHAPE@, group_text(g)) == Some(true)
        },
    ensures
        parsed_groups(gs.map_values(|g: GroupView| group_text(g))) == gs,
    decreases gs.len(),
{
    if gs.len() > 0 {
        let ts = gs.map_values(|g: GroupView| group_text(g));
        let rest = gs.drop_last();
        assert(ts.drop_last() =~= rest.map_values(|g: GroupView| group_text(g)));
        assert forall|i: int| 0 <= i < rest.len() implies {
            let g = #[trigger] rest[i];
            &&& lacks_char(g.0, ':')
            &&& g.2.len() >= 1
            &&& forall|j: int| 0 <= j < g.2.len() ==> lacks_char(#[trigger] g.2[j], ':') && lacks_char(g.2[j], ',')
            &&& regex_is_match(GROUP_SHAPE@, group_text(g)) == Some(true)
        } by {
            assert(rest[i] == gs[i]);
        }
        lemma_parsed_groups_of_lines(rest);
        let g = gs[gs.len() - 1];
        assert(ts.last() == group_text(g));
        lemma_group_round_trip(g);
        assert(rest.push(g) =~= gs);
    }
}

/// A user's line holds no character that its text fields lack, other than
/// `:` and digits.
proof fn lemma_passwd_text_lacks(p: PasswdView, c: char)
    requires
        c != ':' && !is_digit(c),
        lacks_char(p.0, c) && lacks_char(p.1, c) && lacks_char(p.4, c) && lacks_char(p.5, c) && lacks_char(p.6, c),
    ensures
        lacks_char(passwd_text(p), c),
{
    lemma_passwd_text_joins(p);
    lemma_decimal_digits(p.2 as nat);
    lemma_decimal_digits(p.3 as nat);
    let f = passwd_fields(p);
    assert forall|i: int| 0 <= i < f.len() implies lacks_char(#[trigger] f[i], c) by {
        if i == 2 || i == 3 {
            assert forall|k: int| 0 <= k < f[i].len() implies f[i][k] != c by {
                assert(is_digit(f[i][k]));
            }
        }
    }
    lemma_join_lacks(f, seq![':'], c);
}

/// Users whose text fields hold no `:`, line feed or carriage return read
/// back from the text that writes them, where fancy_regex takes each of
/// their lines to have the shape of a user line.
pub proof fn lemma_passwds_round_trip(ps: Seq<PasswdView>)
    requires
        forall|i: int| 0 <= i < ps.len() ==> {
            let p = #[trigger] ps[i];
            &&& forall|c: char| c == ':' || c == '\n' || c == '\r' ==> lacks_char(p.0, c) && lacks_char(p.1, c)
                && lacks_char(p.4, c) && lacks_char(p.5, c) && lacks_char(p.6, c)
            &&& regex_is_match(PASSWD_SHAPE@, passwd_text(p)) == Some(true)
        },
    ensures
        parsed_passwds(split_lines(join_with(ps.map_values(|p: PasswdView| passwd_text(p)), "\n"@))) == ps,
{
    reveal_strlit("\n");
    assert("\n"@ =~= seq!['\n']);
    let ts = ps.map_values(|p: PasswdView| passwd_text(p));
    assert forall|i: int| 0 <= i < ts.len() implies lacks_char(#[trigger] ts[i], '\n') && ts[i].len() > 0
        && strip_cr(ts[i]) == ts[i] by {
        let p = ps[i];
        assert(lacks_char(p.0, '\n') && lacks_char(p.0, '\r'));
        lemma_passwd_text_lacks(p, '\n');
        lemma_passwd_text_lacks(p, '\r');
        lemma_passwd_text_joins(p);
        reveal_strlit(":");
        assert(ts[i].len() >= 1);
        assert(ts[i].last() != '\r');
    }
    if ts.len() == 0 {
        assert(split_on(Seq::<char>::empty(), '\n') =~= seq![Seq::<char>::empty()]) by {
            lemma_split_join(seq![Seq::<char>::empty()], '\n');
        }
        assert(split_lines(Seq::<char>::empty()) =~= Seq::<Seq<char>>::empty());
        assert(parsed_passwds(Seq::<Seq<char>>::empty()) =~= ps);
    } else {
        lemma_split_join(ts, '\n');
        assert(split_lines(join_with(ts, "\n"@)) =~= ts);
        lemma_parsed_passwds_of_lines(ps);
    }
}

/// The lines of well-made users parse back to those users.
proof fn lemma_parsed_passwds_of_lines(ps: Seq<PasswdView>)
    requires
        forall|i: int| 0 <= i < ps.len() ==> {
            let p = #[trigger] ps[i];
            &&& lacks_char(p.0, ':') && lacks_char(p.1, ':') && lacks_char(p.4, ':') && lacks_char(p.5, ':') && lacks_char(p.6, ':')
            &&& regex_is_match(PASSWD_SHAPE@, passwd_text(p)) == Some(true)
        },
    ensures
        parsed_passwds(ps.map_values(|p: PasswdView| passwd_text(p))) == ps,
    decreases ps.len(),
{
    if ps.len() > 0 {
        let ts = ps.map_values(|p: PasswdView| passwd_text(p));
        let rest = ps.drop_last();
        assert(ts.drop_last() =~= rest.map_values(|p: PasswdView| passwd_text(p)));
        assert forall|i: int| 0 <= i < rest.len() implies {
            let p = #[trigger] rest[i];
            &&& lacks_char(p.0, ':') && lacks_char(p.1, ':') && lacks_char(p.4, ':') && lacks_char(p.5, ':') && lacks_char(p.6, ':')
            &&& regex_is_match(PASSWD_SHAPE@, passwd_text(p)) == Some(true)
        } by {
            assert(rest[i] == ps[i]);
        }
        lemma_parsed_passwds_of_lines(rest);
        let p = ps[ps.len() - 1];
        lemma_passwd_round_trip(p);
        assert(rest.push(p) =~= ps);
    }
}

} // verus!
