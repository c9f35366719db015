use vstd::prelude::*;
use crate::action::Action;
use crate::event::Event;
use crate::input::Input;
use crate::names::same_name;
use crate::player::PlayerStatus;
use crate::util::Player;
use crate::visibility::Visibility;

verus! {

/// Who a key stands for.
#[derive(Debug, PartialEq, Eq)]
pub enum Entity {
    Moderator,
    Player(Player),
}

impl Clone for Entity {
    fn clone(&self) -> (r: Self)
        ensures
            r == *self,
    {
        match self {
            Entity::Moderator => Entity::Moderator,
            Entity::Player(p) => Entity::Player(p.clone()),
        }
    }
}

/// What a client asks of the server.
#[derive(Debug, PartialEq, Eq)]
pub enum Request {
    /// Authenticate to the server.
    Auth(String),
    /// Immediately end the current phase (moderator only).
    EndPhase,
    /// Use an action (player only).
    Use(Action),
}

impl Clone for Request {
    fn clone(&self) -> (r: Self)
        ensures
            r == *self,
    {
        match self {
            Request::Auth(key) => Request::Auth(key.clone()),
            Request::EndPhase => Request::EndPhase,
            Request::Use(action) => Request::Use(action.clone()),
        }
    }
}

/// What the server tells a client.
#[derive(Debug, PartialEq, Eq)]
pub enum Response {
    /// Successfully authenticated as the given entity.
    Authenticated(Visibility),
    /// Error processing request.
    Error(String),
    /// An in-game event.
    Event(Event),
    /// Player status reminder.
    Players(Vec<(Player, PlayerStatus)>),
}

/// The keys that the server accepts, each with whom it stands for.
pub type KeyMap = Vec<(String, Visibility)>;

/// What the server does about a request.
#[derive(Debug, PartialEq, Eq)]
pub enum Step {
    /// From now on the connection acts as the given observer, and is told so.
    Authenticate(Visibility),
    /// The input goes to the game.
    Submit(Input),
    /// The request is turned down for the given reason.
    Refuse(Refusal),
}

/// Why a request is turned down.
#[derive(Debug, Clone, Copy, PartialEq, Eq, Structural)]
pub enum Refusal {
    /// The key is none that the server accepts.
    InvalidToken,
    /// The connection acts as somebody who may not ask this.
    PermissionDenied,
}

impl Refusal {
    /// The reason in words.
    pub open spec fn spec_message(self) -> Seq<char> {
        match self {
            Refusal::InvalidToken => "Invalid token"@,
            Refusal::PermissionDenied => "Permission denied"@,
        }
    }

    /// The reason in words, as the client is told it.
    pub fn message(&self) -> (r: String)
        ensures
            r@ == self.spec_message(),
    {
        match self {
            Refusal::InvalidToken => "Invalid token".to_string(),
            Refusal::PermissionDenied => "Permission denied".to_string(),
        }
    }
}

/// The first of the first `n` entries that has the key, if any has.
pub open spec fn key_upto(keys: Seq<(String, Visibility)>, key: Seq<char>, n: int) -> Option<Visibility>
    decreases n,
{
    if n <= 0 {
        None
    } else {
        match key_upto(keys, key, n - 1) {
            Some(v) => Some(v),
            None => if keys[n - 1].0@ == key {
                Some(keys[n - 1].1)
            } else {
                None
            },
        }
    }
}

/// Whom the key stands for, if it is one of the keys.
pub open spec fn key_owner(keys: Seq<(String, Visibility)>, key: Seq<char>) -> Option<Visibility> {
    key_upto(keys, key, keys.len() as int)
}

/// What the server does about a request on a connection that acts as `auth`.
///
/// A key that the server accepts authenticates the connection as the one whom
/// it stands for. Only the moderator may end a phase, and only a player may use
/// an action, which is then submitted in that player's name.
pub open spec fn spec_handle(auth: Visibility, keys: Seq<(String, Visibility)>, request: Request) -> Step {
    match request {
        Request::Auth(key) => match key_owner(keys, key@) {
            Some(who) => Step::Authenticate(who),
            None => Step::Refuse(Refusal::InvalidToken),
        },
        Request::EndPhase => match auth {
            Visibility::Moderator => Step::Submit(Input::EndPhase),
            _ => Step::Refuse(Refusal::PermissionDenied),
        },
        Request::Use(action) => match auth {
            Visibility::Player(player) => Step::Submit(Input::Use(player, action)),
            _ => Step::Refuse(Refusal::PermissionDenied),
        },
    }
}

/// Whom the key stands for, if it is one of the keys.
pub fn look_up(keys: &Vec<(String, Visibility)>, key: &str) -> (r: Option<Visibility>)
    ensures
        r == key_owner(keys@, key@),
{
    let mut i: usize = 0;
    while i < keys.len()
        invariant
            i <= keys.len(),
            key_upto(keys@, key@, i as int) is None,
        decreases keys.len() - i,
    {
        if same_name(keys[i].0.as_str(), key) {
            proof {
                lemma_key_stays(keys@, key@, i as int + 1, keys.len() as int);
            }
            return Some(keys[i].1.clone());
        }
        i += 1;
    }
    None
}

/// A key that is found among the first entries is found among more of them.
pub proof fn lemma_key_stays(keys: Seq<(String, Visibility)>, key: Seq<char>, n: int, m: int)
    requires
        n <= m,
        key_upto(keys, key, n) is Some,
    ensures
        key_upto(keys, key, m) == key_upto(keys, key, n),
    decreases m - n,
{
    if n < m {
        lemma_key_stays(keys, key, n, m - 1);
    }
}

/// What the server does about a request on a connection that acts as `auth`.
pub fn handle(auth: &Visibility, keys: &Vec<(String, Visibility)>, request: &Request) -> (r: Step)
    ensures
        r == spec_handle(*auth, keys@, *request),
{
    match request {
        Request::Auth(key) => match look_up(keys, key.as_str()) {
            Some(who) => Step::Authenticate(who),
            None => Step::Refuse(Refusal::InvalidToken),
        },
        Request::EndPhase => match auth {
            Visibility::Moderator => Step::Submit(Input::EndPhase),
            _ => Step::Refuse(Refusal::PermissionDenied),
        },
        Request::Use(action) => match auth {
            Visibility::Player(player) => Step::Submit(Input::Use(player.clone(), action.clone())),
            _ => Step::Refuse(Refusal::PermissionDenied),
        },
    }
}

/// Whether the entry gives the key to the player of that name.
pub open spec fn is_player_key(entry: (String, Visibility), key: Seq<char>, player: Seq<char>) -> bool {
    entry.0@ == key && (entry.1 matches Visibility::Player(p) && p@ == player)
}

/// The keys that a new game directory starts with: one for the moderator
/// and one for each player of the default setup.
pub fn default_keys() -> (r: KeyMap)
    ensures
        r@.len() == 6,
        r@[0].0@ == "badpassword1"@ && r@[0].1 is Moderator,
        is_player_key(r@[1], "badpassword2"@, "Alice"@),
        is_player_key(r@[2], "badpassword3"@, "Bob"@),
        is_player_key(r@[3], "badpassword4"@, "Charlie"@),
        is_player_key(r@[4], "badpassword5"@, "Eve"@),
        is_player_key(r@[5], "badpassword6"@, "Malory"@),
{
    let mut keys: KeyMap = Vec::new();
    keys.push(("badpassword1".to_string(), Visibility::Moderator));
    keys.push(("badpassword2".to_string(), Visibility::Player("Alice".to_string())));
    keys.push(("badpassword3".to_string(), Visibility::Player("Bob".to_string())));
    keys.push(("badpassword4".to_string(), Visibility::Player("Charlie".to_string())));
    keys.push(("badpassword5".to_string(), Visibility::Player("Eve".to_string())));
    keys.push(("badpassword6".to_string(), Visibility::Player("Malory".to_string())));
    keys
}

/// How a response goes over the wire: an event goes bare, anything else as it is.
#[derive(Debug, PartialEq, Eq)]
pub enum Message {
    Event(Event),
    Response(Response),
}

/// What is sent for a response. An event is sent without its wrapping, so
/// that the protocol reads naturally.
pub fn unwrap_event(message: Response) -> (r: Message)
    ensures
        r == (match message {
            Response::Event(e) => Message::Event(e),
            m => Message::Response(m),
        }),
{
    match message {
        Response::Event(e) => Message::Event(e),
        m => Message::Response(m),
    }
}

} // verus!
