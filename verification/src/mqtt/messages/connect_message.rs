use crate::encoding::{
    encode_binary, encode_string, lemma_parse_binary, lemma_parse_binary_inverse,
    lemma_parse_string, lemma_parse_string_inverse, lemma_parse_u16, 
    lemma_parse_u8, parse_binary, parse_string, parse_u16, parse_u8, push_binary, push_bytes,
    push_string, push_u16, read_binary, read_string, read_u16, read_u8, string_fits, u16_be,
    MAX_STRING_BYTES,
};
use crate::mqtt::messages::connect_flags::ConnectFlags;
use crate::mqtt::messages::fixed_header::{
    frame, frameable, lemma_parse_frame, parse_frame, read_frame, write_frame,
};
use crate::mqtt::messages::packet_type::PacketType;
use crate::mqtt::mqtt_error::MqttError;
use vstd::prelude::*;
use vstd::string::*;
use vstd::utf8::*;

verus! {

/// The message a broker publishes for a client whose connection dies
/// without a DISCONNECT.
#[derive(Debug, Clone, PartialEq, Eq)]
pub struct WillMessage {
    pub topic: String,
    pub message: Vec<u8>,
    pub qos: u8,
    pub retain: bool,
}

pub struct WillView {
    pub topic: Seq<char>,
    pub message: Seq<u8>,
    pub qos: u8,
    pub retain: bool,
}

impl View for WillMessage {
    type V = WillView;

    open spec fn view(&self) -> WillView {
        WillView { topic: self.topic@, message: self.message@, qos: self.qos, retain: self.retain }
    }
}

impl WillView {
    pub open spec fn wf(self) -> bool {
        string_fits(self.topic) && self.message.len() <= MAX_STRING_BYTES && self.qos <= 2
    }
}

impl WillMessage {
    pub fn new(topic: String, message: Vec<u8>, qos: u8, retain: bool) -> (will: Self)
        ensures
            will@ == (WillView { topic: topic@, message: message@, qos, retain }),
    {
        WillMessage { topic, message, qos, retain }
    }

    /// A copy of this will.
    pub fn duplicate(&self) -> (copy: WillMessage)
        ensures
            copy@ == self@,
    {
        let mut message: Vec<u8> = Vec::new();
        push_bytes(&mut message, self.message.as_slice());
        assert(message@ =~= self.message@);
        WillMessage { topic: self.topic.clone(), message, qos: self.qos, retain: self.retain }
    }
}

/// CONNECT: opens a session.
#[derive(Debug, PartialEq, Eq)]
pub struct ConnectMessage {
    client_id: String,
    clean_session: bool,
    keep_alive: u16,
    will: Option<WillMessage>,
    username: Option<String>,
    password: Option<String>,
}

/// What a CONNECT says, as plain mathematical values.
pub struct ConnectView {
    pub client_id: Seq<char>,
    pub clean_session: bool,
    pub keep_alive: u16,
    pub will: Option<WillView>,
    pub username: Option<Seq<char>>,
    pub password: Option<Seq<char>>,
}

/// Protocol name "MQTT" as a length-prefixed string, then protocol level 4.
pub open spec fn protocol_prefix() -> Seq<u8> {
    seq![0u8, 4u8, 77u8, 81u8, 84u8, 84u8, 4u8]
}

pub open spec fn encode_optional_string(s: Option<Seq<char>>) -> Seq<u8> {
    match s {
        Some(text) => encode_string(text),
        None => Seq::empty(),
    }
}

pub open spec fn parse_optional_string(present: bool, b: Seq<u8>) -> Option<
    (Option<Seq<char>>, Seq<u8>),
> {
    if present {
        match parse_string(b) {
            Some((text, rest)) => Some((Some(text), rest)),
            None => None,
        }
    } else {
        Some((None, b))
    }
}

pub open spec fn encode_will(will: Option<WillView>) -> Seq<u8> {
    match will {
        Some(w) => encode_string(w.topic) + encode_binary(w.message),
        None => Seq::empty(),
    }
}

pub open spec fn parse_will(flags: ConnectFlags, b: Seq<u8>) -> Option<(Option<WillView>, Seq<u8>)> {
    if flags.will_flag {
        match parse_string(b) {
            None => None,
            Some((topic, rest)) => match parse_binary(rest) {
                None => None,
                Some((message, tail)) => Some(
                    (
                        Some(
                            WillView {
                                topic,
                                message,
                                qos: flags.will_qos,
                                retain: flags.will_retain,
                            },
                        ),
                        tail,
                    ),
                ),
            },
        }
    } else {
        Some((None, b))
    }
}

/// Reads what follows the client id: the will, the username and the
/// password, each only if `flags` announces it, and what is left.
pub open spec fn parse_optional_fields(flags: ConnectFlags, b: Seq<u8>) -> Option<
    (Option<WillView>, Option<Seq<char>>, Option<Seq<char>>, Seq<u8>),
> {
    match parse_will(flags, b) {
        None => None,
        Some((will, after_will)) => match parse_optional_string(flags.username_flag, after_will) {
            None => None,
            Some((username, after_name)) => match parse_optional_string(
                flags.password_flag,
                after_name,
            ) {
                None => None,
                Some((password, rest)) => Some((will, username, password, rest)),
            },
        },
    }
}

impl ConnectView {
    /// The flags byte that announces which optional fields follow.
    pub open spec fn flags(self) -> ConnectFlags {
        ConnectFlags {
            username_flag: self.username is Some,
            password_flag: self.password is Some,
            will_retain: match self.will {
                Some(w) => w.retain,
                None => false,
            },
            will_qos: match self.will {
                Some(w) => w.qos,
                None => 0,
            },
            will_flag: self.will is Some,
            clean_session: self.clean_session,
            reserved: false,
        }
    }

    /// What follows the client id: will topic and message, username,
    /// password, each only when present.
    pub open spec fn optional_fields(self) -> Seq<u8> {
        encode_will(self.will) + (encode_optional_string(self.username) + encode_optional_string(
            self.password,
        ))
    }

    /// Variable header (protocol name and level, flags, keep-alive), then the
    /// payload (client id and the optional fields).
    pub open spec fn body(self) -> Seq<u8> {
        protocol_prefix() + (seq![self.flags().byte_value() as u8] + (u16_be(self.keep_alive) + (
        encode_string(self.client_id) + self.optional_fields())))
    }

    pub open spec fn wf(self) -> bool {
        &&& string_fits(self.client_id)
        &&& self.will matches Some(w) ==> w.wf()
        &&& self.username matches Some(name) ==> string_fits(name)
        &&& self.password matches Some(word) ==> string_fits(word)
    }

    pub open spec fn encode(self) -> Seq<u8> {
        frame(PacketType::Connect, 0, self.body())
    }

    /// Flags that a CONNECT may carry: reserved bit clear, a will quality of
    /// service of at most 2, and no will quality of service or will retain
    /// without a will.
    pub open spec fn flags_acceptable(flags: ConnectFlags) -> bool {
        &&& flags.is_canonical()
        &&& !flags.will_flag ==> flags.will_qos == 0 && !flags.will_retain
    }

    /// Reads the body of a CONNECT.
    pub open spec fn decode_body(body: Seq<u8>) -> Option<ConnectView> {
        if body.len() < 7 || body.take(7) != protocol_prefix() {
            None
        } else {
            match parse_u8(body.skip(7)) {
                None => None,
                Some((byte, after_flags)) => {
                    let flags = ConnectFlags::of_byte(byte);
                    if !Self::flags_acceptable(flags) {
                        None
                    } else {
                        match parse_u16(after_flags) {
                            None => None,
                            Some((keep_alive, after_keep_alive)) => match parse_string(
                                after_keep_alive,
                            ) {
                                None => None,
                                Some((client_id, after_id)) => match parse_optional_fields(
                                    flags,
                                    after_id,
                                ) {
                                    None => None,
                                    Some((will, username, password, rest)) => if rest.len() == 0 {
                                        Some(
                                            ConnectView {
                                                client_id,
                                                clean_session: flags.clean_session,
                                                keep_alive,
                                                will,
                                                username,
                                                password,
                                            },
                                        )
                                    } else {
                                        None
                                    },
                                },
                            },
                        }
                    }
                },
            }
        }
    }

    /// The CONNECT that `b` spells, if it is exactly one.
    pub open spec fn decode(b: Seq<u8>) -> Option<ConnectView> {
        match parse_frame(b) {
            Some((PacketType::Connect, flags, body)) => if flags == 0 {
                Self::decode_body(body)
            } else {
                None
            },
            _ => None,
        }
    }

    /// The body of a well-formed CONNECT always fits a packet.
    pub proof fn lemma_body_fits(self)
        requires
            self.wf(),
        ensures
            frameable(self.body()),
            self.body().len() <= 7 + 1 + 2 + 5 * (2 + MAX_STRING_BYTES),
    {
        assert(encode_will(self.will).len() <= 2 * (2 + MAX_STRING_BYTES));
        assert(encode_optional_string(self.username).len() <= 2 + MAX_STRING_BYTES);
        assert(encode_optional_string(self.password).len() <= 2 + MAX_STRING_BYTES);
    }

    /// Reading the optional fields of a well-formed CONNECT gives them back
    /// and leaves nothing.
    pub proof fn lemma_parse_optional_fields(self)
        requires
            self.wf(),
        ensures
            parse_optional_fields(self.flags(), self.optional_fields()) == Some(
                (self.will, self.username, self.password, Seq::<u8>::empty()),
            ),
    {
        let flags = self.flags();
        let password = encode_optional_string(self.password);
        let names = encode_optional_string(self.username) + password;
        let optional = self.optional_fields();
        match self.will {
            Some(w) => {
                assert(optional =~= encode_string(w.topic) + (encode_binary(w.message) + names));
                lemma_parse_string(w.topic, encode_binary(w.message) + names);
                lemma_parse_binary(w.message, names);
            },
            None => {
                assert(optional =~= names);
            },
        }
        assert(parse_will(flags, optional) == Some((self.will, names)));
        match self.username {
            Some(name) => {
                lemma_parse_string(name, password);
            },
            None => {
                assert(names =~= password);
            },
        }
        assert(parse_optional_string(flags.username_flag, names) == Some(
            (self.username, password),
        ));
        match self.password {
            Some(word) => {
                assert(password =~= encode_string(word) + Seq::<u8>::empty());
                lemma_parse_string(word, Seq::empty());
            },
            None => {},
        }
        assert(parse_optional_string(flags.password_flag, password) == Some(
            (self.password, Seq::<u8>::empty()),
        ));
    }

    /// Reading the body of a well-formed CONNECT gives the message back.
    pub proof fn lemma_decode_body(self)
        requires
            self.wf(),
        ensures
            Self::decode_body(self.body()) == Some(self),
    {
        let flags = self.flags();
        flags.lemma_from_byte_of_to_byte();
        let byte = flags.byte_value() as u8;
        let optional = self.optional_fields();
        let after_keep_alive = encode_string(self.client_id) + optional;
        let after_flags = u16_be(self.keep_alive) + after_keep_alive;
        let after_prefix = seq![byte] + after_flags;
        let body = self.body();
        assert(body.take(7) =~= protocol_prefix());
        assert(body.skip(7) =~= after_prefix);
        lemma_parse_u8(byte, after_flags);
        lemma_parse_u16(self.keep_alive, after_keep_alive);
        lemma_parse_string(self.client_id, optional);
        self.lemma_parse_optional_fields();
        assert(ConnectFlags::of_byte(byte) == flags);
        assert(Self::flags_acceptable(flags));
    }

    /// Decoding an encoded CONNECT gives the message back.
    pub proof fn lemma_decode_encode(self)
        requires
            self.wf(),
        ensures
            Self::decode(self.encode()) == Some(self),
    {
        self.lemma_body_fits();
        lemma_parse_frame(PacketType::Connect, 0, self.body());
        self.lemma_decode_body();
    }

    /// Whatever decodes is well formed.
    pub proof fn lemma_decode_wf(b: Seq<u8>)
        ensures
            Self::decode(b) matches Some(v) ==> v.wf(),
    {
        if let Some(v) = Self::decode(b) {
            let body = parse_frame(b).unwrap().2;
            let after_flags = parse_u8(body.skip(7)).unwrap().1;
            let flags = ConnectFlags::of_byte(parse_u8(body.skip(7)).unwrap().0);
            let after_keep_alive = parse_u16(after_flags).unwrap().1;
            lemma_parse_string_inverse(after_keep_alive);
            let after_id = parse_string(after_keep_alive).unwrap().1;
            if flags.will_flag {
                lemma_parse_string_inverse(after_id);
                lemma_parse_binary_inverse(parse_string(after_id).unwrap().1);
            }
            let after_will = parse_will(flags, after_id).unwrap().1;
            if flags.username_flag {
                lemma_parse_string_inverse(after_will);
            }
            let after_name = parse_optional_string(flags.username_flag, after_will).unwrap().1;
            if flags.password_flag {
                lemma_parse_string_inverse(after_name);
            }
        }
    }
}

pub open spec fn optional_text_view(s: Option<String>) -> Option<Seq<char>> {
    match s {
        Some(text) => Some(text@),
        None => None,
    }
}

pub open spec fn optional_will_view(w: Option<WillMessage>) -> Option<WillView> {
    match w {
        Some(will) => Some(will@),
        None => None,
    }
}

impl View for ConnectMessage {
    type V = ConnectView;

    closed spec fn view(&self) -> ConnectView {
        ConnectView {
            client_id: self.client_id@,
            clean_session: self.clean_session,
            keep_alive: self.keep_alive,
            will: optional_will_view(self.will),
            username: optional_text_view(self.username),
            password: optional_text_view(self.password),
        }
    }
}

/// Why a CONNECT with these contents cannot be built, if it cannot.
pub open spec fn connect_refusal(v: ConnectView) -> Option<MqttError> {
    if v.will matches Some(w) && w.qos > 2 {
        Some(MqttError::MalformedPacket)
    } else if !v.wf() {
        Some(MqttError::TooLong)
    } else {
        None
    }
}

proof fn lemma_concat_assoc(a: Seq<u8>, b: Seq<u8>, c: Seq<u8>)
    ensures
        (a + b) + c == a + (b + c),
{
    assert((a + b) + c =~= a + (b + c));
}

fn text_fits(s: &str) -> (b: bool)
    ensures
        b == string_fits(s@),
{
    s.as_bytes().len() <= MAX_STRING_BYTES
}

fn optional_text_fits(s: &Option<String>) -> (b: bool)
    ensures
        b == (optional_text_view(*s) matches Some(text) ==> string_fits(text)),
{
    match s {
        Some(text) => text_fits(text.as_str()),
        None => true,
    }
}

fn push_optional_string(out: &mut Vec<u8>, s: &Option<String>)
    requires
        optional_text_view(*s) matches Some(text) ==> string_fits(text),
    ensures
        final(out)@ == old(out)@ + encode_optional_string(optional_text_view(*s)),
{
    match s {
        Some(text) => push_string(out, text.as_str()),
        None => {
            assert(out@ =~= old(out)@ + Seq::<u8>::empty());
        },
    }
}

fn read_optional_string(present: bool, bytes: &[u8], pos: usize) -> (r: Option<
    (Option<String>, usize),
>)
    requires
        pos <= bytes@.len(),
    ensures
        match parse_optional_string(present, bytes@.skip(pos as int)) {
            Some((s, rest)) => r matches Some((text, next)) && optional_text_view(text) == s
                && pos <= next <= bytes@.len() && rest == bytes@.skip(next as int),
            None => r is None,
        },
{
    if present {
        match read_string(bytes, pos) {
            Some((text, next)) => Some((Some(text), next)),
            None => None,
        }
    } else {
        Some((None, pos))
    }
}

impl ConnectMessage {
    #[verifier::type_invariant]
    spec fn well_formed(self) -> bool {
        self@.wf()
    }

    /// Builds a CONNECT. A will with a quality of service above 2 makes it
    /// malformed; a field over 65535 bytes makes it too long.
    pub fn new(
        client_id: String,
        clean_session: bool,
        keep_alive: u16,
        will: Option<WillMessage>,
        username: Option<String>,
        password: Option<String>,
    ) -> (r: Result<ConnectMessage, MqttError>)
        ensures
            ({
                let v = ConnectView {
                    client_id: client_id@,
                    clean_session,
                    keep_alive,
                    will: optional_will_view(will),
                    username: optional_text_view(username),
                    password: optional_text_view(password),
                };
                match r {
                    Ok(msg) => connect_refusal(v) is None && msg@ == v && v.wf(),
                    Err(e) => connect_refusal(v) == Some(e),
                }
            }),
    {
        let will_fits: bool = match &will {
            Some(w) => {
                if w.qos > 2 {
                    return Err(MqttError::MalformedPacket);
                }
                text_fits(w.topic.as_str()) && w.message.len() <= MAX_STRING_BYTES
            },
            None => true,
        };
        if !will_fits || !text_fits(client_id.as_str()) || !optional_text_fits(&username)
            || !optional_text_fits(&password) {
            return Err(MqttError::TooLong);
        }
        Ok(ConnectMessage { client_id, clean_session, keep_alive, will, username, password })
    }

    /// A copy of this message.
    pub fn duplicate(&self) -> (copy: ConnectMessage)
        ensures
            copy@ == self@,
    {
        proof {
            use_type_invariant(self);
        }
        let will: Option<WillMessage> = match &self.will {
            Some(w) => Some(w.duplicate()),
            None => None,
        };
        let username: Option<String> = match &self.username {
            Some(name) => Some(name.clone()),
            None => None,
        };
        let password: Option<String> = match &self.password {
            Some(word) => Some(word.clone()),
            None => None,
        };
        ConnectMessage {
            client_id: self.client_id.clone(),
            clean_session: self.clean_session,
            keep_alive: self.keep_alive,
            will,
            username,
            password,
        }
    }

    pub fn get_client_id(&self) -> (id: &str)
        ensures
            id@ == self@.client_id,
    {
        self.client_id.as_str()
    }

    pub fn is_clean_session(&self) -> (clean: bool)
        ensures
            clean == self@.clean_session,
    {
        self.clean_session
    }

    pub fn get_keep_alive(&self) -> (seconds: u16)
        ensures
            seconds == self@.keep_alive,
    {
        self.keep_alive
    }

    pub fn get_will(&self) -> (will: &Option<WillMessage>)
        ensures
            optional_will_view(*will) == self@.will,
            self@.will matches Some(w) ==> w.wf(),
    {
        proof {
            use_type_invariant(self);
        }
        &self.will
    }

    pub fn get_username(&self) -> (name: &Option<String>)
        ensures
            optional_text_view(*name) == self@.username,
    {
        &self.username
    }

    pub fn get_password(&self) -> (word: &Option<String>)
        ensures
            optional_text_view(*word) == self@.password,
    {
        &self.password
    }

    /// The flags byte of this message.
    pub fn get_flags(&self) -> (flags: ConnectFlags)
        ensures
            flags == self@.flags(),
    {
        ConnectFlags {
            username_flag: self.username.is_some(),
            password_flag: self.password.is_some(),
            will_retain: match &self.will {
                Some(w) => w.retain,
                None => false,
            },
            will_qos: match &self.will {
                Some(w) => w.qos,
                None => 0,
            },
            will_flag: self.will.is_some(),
            clean_session: self.clean_session,
            reserved: false,
        }
    }

    pub fn to_bytes(&self) -> (bytes: Vec<u8>)
        ensures
            self@.wf(),
            bytes@ == self@.encode(),
    {
        proof {
            use_type_invariant(self);
            self@.lemma_body_fits();
        }
        let flags = self.get_flags();
        let byte: u8 = flags.to_byte();
        let ghost head = protocol_prefix();
        let ghost flag = seq![byte];
        let ghost alive = u16_be(self.keep_alive);
        let ghost ident = encode_string(self@.client_id);
        let ghost testament = encode_will(self@.will);
        let ghost name = encode_optional_string(self@.username);
        let ghost word = encode_optional_string(self@.password);
        let mut body: Vec<u8> = Vec::new();
        body.push(0);
        body.push(4);
        body.push(77);
        body.push(81);
        body.push(84);
        body.push(84);
        body.push(4);
        assert(body@ =~= head);
        body.push(byte);
        assert(body@ =~= head + flag);
        push_u16(&mut body, self.keep_alive);
        push_string(&mut body, self.client_id.as_str());
        let ghost fixed = body@;
        assert(fixed == head + flag + alive + ident);
        match &self.will {
            Some(w) => {
                push_string(&mut body, w.topic.as_str());
                push_binary(&mut body, w.message.as_slice());
                assert(body@ =~= fixed + testament);
            },
            None => {
                assert(body@ =~= fixed + testament);
            },
        }
        push_optional_string(&mut body, &self.username);
        push_optional_string(&mut body, &self.password);
        proof {
            assert(body@ == head + flag + alive + ident + testament + name + word);
            lemma_concat_assoc(head + flag + alive + ident + testament, name, word);
            lemma_concat_assoc(head + flag + alive + ident, testament, name + word);
            lemma_concat_assoc(head + flag + alive, ident, testament + (name + word));
            lemma_concat_assoc(head + flag, alive, ident + (testament + (name + word)));
            lemma_concat_assoc(head, flag, alive + (ident + (testament + (name + word))));
            assert(byte == self@.flags().byte_value() as u8);
            assert(body@ == self@.body());
        }
        match write_frame(PacketType::Connect, 0, &body) {
            Ok(bytes) => bytes,
            Err(_) => Vec::new(),
        }
    }

    pub fn from_bytes(bytes: &[u8]) -> (r: Result<ConnectMessage, MqttError>)
        ensures
            match ConnectView::decode(bytes@) {
                Some(v) => r matches Ok(msg) && msg@ == v,
                None => r == Err::<ConnectMessage, MqttError>(MqttError::MalformedPacket),
            },
    {
        proof {
            ConnectView::lemma_decode_wf(bytes@);
        }
        let start: usize = match read_frame(bytes) {
            Some((PacketType::Connect, flags, start)) => {
                if flags != 0 {
                    return Err(MqttError::MalformedPacket);
                }
                start
            },
            _ => {
                return Err(MqttError::MalformedPacket);
            },
        };
        let ghost body = bytes@.skip(start as int);
        if bytes.len() - start < 7 {
            return Err(MqttError::MalformedPacket);
        }
        if bytes[start] != 0 || bytes[start + 1] != 4 || bytes[start + 2] != 77 || bytes[start + 3]
            != 81 || bytes[start + 4] != 84 || bytes[start + 5] != 84 || bytes[start + 6] != 4 {
            assert(body.take(7)[0] == bytes@[start as int]);
            assert(body.take(7)[1] == bytes@[start + 1]);
            assert(body.take(7)[2] == bytes@[start + 2]);
            assert(body.take(7)[3] == bytes@[start + 3]);
            assert(body.take(7)[4] == bytes@[start + 4]);
            assert(body.take(7)[5] == bytes@[start + 5]);
            assert(body.take(7)[6] == bytes@[start + 6]);
            return Err(MqttError::MalformedPacket);
        }
        assert(body.take(7) =~= protocol_prefix());
        assert(body.skip(7) =~= bytes@.skip(start + 7));
        let (byte, after_flags) = match read_u8(bytes, start + 7) {
            Some(found) => found,
            None => {
                return Err(MqttError::MalformedPacket);
            },
        };
        let flags = ConnectFlags::from_byte(byte);
        if flags.reserved || flags.will_qos > 2 || (!flags.will_flag && (flags.will_qos != 0
            || flags.will_retain)) {
            return Err(MqttError::MalformedPacket);
        }
        let (keep_alive, after_keep_alive) = match read_u16(bytes, after_flags) {
            Some(found) => found,
            None => {
                return Err(MqttError::MalformedPacket);
            },
        };
        let (client_id, after_id) = match read_string(bytes, after_keep_alive) {
            Some(found) => found,
            None => {
                return Err(MqttError::MalformedPacket);
            },
        };
        let mut will: Option<WillMessage> = None;
        let mut after_will: usize = after_id;
        if flags.will_flag {
            let (topic, after_topic) = match read_string(bytes, after_id) {
                Some(found) => found,
                None => {
                    return Err(MqttError::MalformedPacket);
                },
            };
            let (message, after_message) = match read_binary(bytes, after_topic) {
                Some(found) => found,
                None => {
                    return Err(MqttError::MalformedPacket);
                },
            };
            will = Some(
                WillMessage { topic, message, qos: flags.will_qos, retain: flags.will_retain },
            );
            after_will = after_message;
        }
        let (username, after_name) = match read_optional_string(
            flags.username_flag,
            bytes,
            after_will,
        ) {
            Some(found) => found,
            None => {
                return Err(MqttError::MalformedPacket);
            },
        };
        let (password, end) = match read_optional_string(flags.password_flag, bytes, after_name) {
            Some(found) => found,
            None => {
                return Err(MqttError::MalformedPacket);
            },
        };
        if end != bytes.len() {
            return Err(MqttError::MalformedPacket);
        }
        Ok(
            ConnectMessage {
                client_id,
                clean_session: flags.clean_session,
                keep_alive,
                will,
                username,
                password,
            },
        )
    }
}

impl Clone for ConnectMessage {
    fn clone(&self) -> (copy: Self)
        ensures
            copy@ == self@,
    {
        self.duplicate()
    }
}

} // verus!
