//! The `!mp` responder's pure logic: order the public games by player
//! count, largest first, and format the top five as one reply line.
use vstd::prelude::*;

use crate::strutil::dec_spec;
use crate::strutil::join_spec;
use crate::strutil::join_with;
use crate::strutil::u64_to_string;

verus! {

/// One public game as the matchmaking listing reports it.
pub struct GameInfo {
    pub name: String,
    pub players: Vec<String>,
    pub game_version: String,
    pub has_password: bool,
    pub mod_count: u64,
}

/// The mathematical value of a [`GameInfo`].
#[verifier::ext_equal]
pub ghost struct GameModel {
    pub name: Seq<char>,
    pub players: Seq<Seq<char>>,
    pub game_version: Seq<char>,
    pub has_password: bool,
    pub mod_count: u64,
}

impl View for GameInfo {
    type V = GameModel;

    open spec fn view(&self) -> GameModel {
        GameModel {
            name: self.name@,
            players: self.players@.map_values(|s: String| s@),
            game_version: self.game_version@,
            has_password: self.has_password,
            mod_count: self.mod_count,
        }
    }
}

/// The ordering key: how many players are in the game.
pub open spec fn game_key(g: GameModel) -> int {
    g.players.len() as int
}

/// Largest player count first.
pub open spec fn sorted_desc(s: Seq<GameModel>) -> bool {
    forall|i: int, j: int| 0 <= i < j < s.len() ==> game_key(#[trigger] s[i]) >= game_key(
        #[trigger] s[j],
    )
}

/// Order the games by player count, largest first. The result holds
/// exactly the given games (as a multiset); the order among games of
/// equal player count is not specified beyond the sortedness.
pub fn sort_games_desc(games: Vec<GameInfo>) -> (r: Vec<GameInfo>)
    ensures
        r@.map_values(|g: GameInfo| g@).to_multiset() == games@.map_values(
            |g: GameInfo| g@,
        ).to_multiset(),
        sorted_desc(r@.map_values(|g: GameInfo| g@)),
{
    broadcast use vstd::seq_lib::group_to_multiset_ensures;

    let ghost input = games@.map_values(|g: GameInfo| g@);
    let mut games = games;
    let mut out: Vec<GameInfo> = Vec::new();
    proof {
        assert(out@.map_values(|g: GameInfo| g@) =~= Seq::<GameModel>::empty());
        assert(Seq::<GameModel>::empty().to_multiset().add(input.to_multiset())
            =~= input.to_multiset());
    }
    while games.len() > 0
        invariant
            sorted_desc(out@.map_values(|g: GameInfo| g@)),
            out@.map_values(|g: GameInfo| g@).to_multiset().add(
                games@.map_values(|g: GameInfo| g@).to_multiset(),
            ) == input.to_multiset(),
        decreases games.len(),
    {
        let ghost pre_games = games@.map_values(|g: GameInfo| g@);
        let ghost pre_out = out@.map_values(|g: GameInfo| g@);
        let g = match games.pop() {
            Some(g) => g,
            None => {
                proof {
                    assert(false);
                }
                unreached()
            },
        };
        proof {
            pre_games.to_multiset_ensures();
            assert(games@.map_values(|g2: GameInfo| g2@) =~= pre_games.drop_last());
            assert(pre_games.remove(pre_games.len() - 1) =~= pre_games.drop_last());
            assert(pre_games.remove(pre_games.len() - 1).to_multiset() =~= pre_games.to_multiset()
                .remove(pre_games.last()));
            assert(pre_games.drop_last().to_multiset() =~= pre_games.to_multiset().remove(
                pre_games.last(),
            ));
            assert(pre_games.last() == g@);
        }
        let key = g.players.len();
        let n = out.len();
        let mut p: usize = 0;
        while p < n && out[p].players.len() >= key
            invariant
                p <= n,
                n == out@.len(),
                key == g@.players.len(),
                forall|j: int|
                    0 <= j < p ==> game_key((#[trigger] out@[j])@) >= game_key(g@),
            decreases n - p,
        {
            p += 1;
        }
        proof {
            assert(p == n || game_key(out@[p as int]@) < game_key(g@));
        }
        let ghost gm = g@;
        out.insert(p, g);
        proof {
            let cur = out@.map_values(|g2: GameInfo| g2@);
            cur.to_multiset_ensures();
            assert(cur =~= pre_out.insert(p as int, gm));
            assert(cur.remove(p as int) =~= pre_out);
            assert(cur[p as int] == gm);
            assert(cur.remove(p as int).to_multiset() =~= cur.to_multiset().remove(cur[p as int]));
            assert(cur.remove(p as int).to_multiset() =~= cur.to_multiset().remove(gm));
            assert(cur.contains(gm));
            assert(cur.to_multiset().count(gm) > 0);
            assert(cur.to_multiset() =~= pre_out.to_multiset().insert(gm));
            assert(cur.to_multiset().add(pre_games.drop_last().to_multiset())
                =~= input.to_multiset());
            assert forall|a: int, b: int| 0 <= a < b < cur.len() implies game_key(
                #[trigger] cur[a],
            ) >= game_key(#[trigger] cur[b]) by {
                if a < p && b < p {
                    assert(cur[a] == pre_out[a]);
                    assert(cur[b] == pre_out[b]);
                } else if a < p && b == p {
                    assert(cur[a] == pre_out[a]);
                } else if a < p && b > p {
                    assert(cur[a] == pre_out[a]);
                    assert(cur[b] == pre_out[b - 1]);
                } else if a == p && b > p {
                    assert(cur[b] == pre_out[b - 1]);
                    assert(p < n ==> game_key(pre_out[p as int]) < game_key(gm));
                    assert(p < n ==> game_key(pre_out[b - 1]) <= game_key(pre_out[p as int]));
                } else {
                    assert(cur[a] == pre_out[a - 1]);
                    assert(cur[b] == pre_out[b - 1]);
                }
            }
        }
    }
    proof {
        assert(games@.map_values(|g: GameInfo| g@) =~= Seq::<GameModel>::empty());
        assert(out@.map_values(|g: GameInfo| g@).to_multiset().add(
            Seq::<GameModel>::empty().to_multiset(),
        ) =~= out@.map_values(|g: GameInfo| g@).to_multiset());
    }
    out
}

/// One game's entry in the reply: name, player count, version, and the
/// password / modded marks.
pub open spec fn game_line_spec(g: GameModel) -> Seq<char> {
    g.name + " ("@ + dec_spec(g.players.len()) + " players, v"@ + g.game_version + (
    if g.has_password {
        " +p"@
    } else {
        Seq::<char>::empty()
    }) + (if g.mod_count > 0 {
        " modded"@
    } else {
        Seq::<char>::empty()
    }) + ")"@
}

/// The whole reply: the first five games (or all, when fewer), comma
/// separated, behind the fixed heading.
pub open spec fn summary_spec(games: Seq<GameModel>) -> Seq<char> {
    let shown = if games.len() <= 5 {
        games
    } else {
        games.take(5)
    };
    "Top 5 games: "@ + join_spec(shown.map_values(|g: GameModel| game_line_spec(g)), ", "@)
}

/// Format one game's entry.
fn game_line(g: &GameInfo) -> (r: String)
    ensures
        r@ == game_line_spec(g@),
{
    let count = u64_to_string(g.players.len() as u64);
    let mut line = g.name.clone().concat(" (").concat(count.as_str()).concat(
        " players, v",
    ).concat(g.game_version.as_str());
    if g.has_password {
        line = line.concat(" +p");
    }
    if g.mod_count > 0 {
        line = line.concat(" modded");
    }
    let r = line.concat(")");
    proof {
        assert(g@.players.len() == g.players@.len());
        assert(r@ =~= game_line_spec(g@));
    }
    r
}

/// Format the reply for a listing that is already ordered: the first
/// five games, comma separated, behind the fixed heading.
pub fn top_games_summary(games: &Vec<GameInfo>) -> (r: String)
    ensures
        r@ == summary_spec(games@.map_values(|g: GameInfo| g@)),
{
    let shown: usize = if games.len() <= 5 {
        games.len()
    } else {
        5
    };
    let mut lines: Vec<String> = Vec::new();
    let mut i: usize = 0;
    while i < shown
        invariant
            i <= shown,
            shown <= games@.len(),
            lines@.len() == i,
            forall|j: int|
                0 <= j < i ==> #[trigger] lines@[j]@ == game_line_spec(
                    games@.map_values(|g: GameInfo| g@)[j],
                ),
        decreases shown - i,
    {
        lines.push(game_line(&games[i]));
        i += 1;
    }
    let joined = join_with(&lines, ", ");
    let r = String::from_str("Top 5 games: ").concat(joined.as_str());
    proof {
        let models = games@.map_values(|g: GameInfo| g@);
        let shown_models = if models.len() <= 5 {
            models
        } else {
            models.take(5)
        };
        assert(lines@.map_values(|t: String| t@) =~~= shown_models.map_values(
            |g: GameModel| game_line_spec(g),
        ));
    }
    r
}

} // verus!
