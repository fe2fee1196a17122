//! The connection builder of the Node.js bindings.
//!
//! Every step that talks to the indexer is in two parts. The first checks the state and hands
//! out what the step needs; the second takes the outcome and sets the new state. In between
//! there is no state, so no other step can begin.

use vstd::prelude::*;
use vstd::string::*;

use crate::builder::{
    awaits_approval, awaits_connection, awaits_registration, take_approved, take_disconnected,
    take_requesting, BuilderState, State,
};
use crate::ids::{hash_error, hash_value, parse_hash};
use crate::text::{labelled, option_text};
use crate::urls::{parse_url, url_value};

verus! {

/// What an app tells of itself. The ID is in hexadecimal.
pub struct AppMeta {
    pub id: String,
    pub name: String,
    pub description: String,
    pub service_url: String,
    pub logo_url: Option<String>,
    pub callback_url: Option<String>,
}

/// The request with which an app introduces itself. URLs are in their normal form.
pub struct RegisterAppRequest {
    pub app_id: [u8; 32],
    pub name: String,
    pub description: String,
    pub service_url: String,
    pub logo_url: Option<String>,
    pub callback_url: Option<String>,
}

/// The normal form of a URL, or its error with a label.
pub open spec fn labelled_url(label: Seq<char>, url: Seq<char>) -> Result<Seq<char>, Seq<char>> {
    match url_value(url) {
        Ok(parsed) => Ok(parsed),
        Err(e) => Err(label + e),
    }
}

/// The normal form of a URL that may be left out.
pub open spec fn optional_url(label: Seq<char>, url: Option<String>) -> Result<
    Option<Seq<char>>,
    Seq<char>,
> {
    match url {
        None => Ok(None),
        Some(url) => match labelled_url(label, url@) {
            Ok(parsed) => Ok(Some(parsed)),
            Err(e) => Err(e),
        },
    }
}

/// The URLs of an app in their normal form, or what is wrong with the first bad one: the service
/// URL, the logo URL, the callback URL.
pub open spec fn app_urls(meta: AppMeta) -> Result<
    (Seq<char>, Option<Seq<char>>, Option<Seq<char>>),
    Seq<char>,
> {
    match labelled_url("invalid service url: "@, meta.service_url@) {
        Err(e) => Err(e),
        Ok(service_url) => match optional_url("invalid logo url: "@, meta.logo_url) {
            Err(e) => Err(e),
            Ok(logo_url) => match optional_url("invalid callback url: "@, meta.callback_url) {
                Err(e) => Err(e),
                Ok(callback_url) => Ok((service_url, logo_url, callback_url)),
            },
        },
    }
}

/// The URLs of an app that can be read are its own, each in the place of its own: the service URL,
/// and the logo and callback URLs exactly where the app has them. Otherwise the first of them that
/// cannot be read is named.
pub proof fn lemma_app_urls(meta: AppMeta)
    ensures
        app_urls(meta) matches Ok((service_url, logo_url, callback_url)) ==> {
            &&& url_value(meta.service_url@) == Ok::<Seq<char>, Seq<char>>(service_url)
            &&& logo_url is Some <==> meta.logo_url is Some
            &&& logo_url matches Some(url) ==> url_value(meta.logo_url->0@) == Ok::<
                Seq<char>,
                Seq<char>,
            >(url)
            &&& callback_url is Some <==> meta.callback_url is Some
            &&& callback_url matches Some(url) ==> url_value(meta.callback_url->0@) == Ok::<
                Seq<char>,
                Seq<char>,
            >(url)
        },
        app_urls(meta) is Ok <==> url_value(meta.service_url@) is Ok && (meta.logo_url is Some
            ==> url_value(meta.logo_url->0@) is Ok) && (meta.callback_url is Some ==> url_value(
            meta.callback_url->0@,
        ) is Ok),
        app_urls(meta) matches Err(e) ==> {
            if url_value(meta.service_url@) is Err {
                e == "invalid service url: "@ + url_value(meta.service_url@)->Err_0
            } else if meta.logo_url is Some && url_value(meta.logo_url->0@) is Err {
                e == "invalid logo url: "@ + url_value(meta.logo_url->0@)->Err_0
            } else {
                e == "invalid callback url: "@ + url_value(meta.callback_url->0@)->Err_0
            }
        },
{
}

fn check_url(label: &str, url: &str) -> (result: Result<String, String>)
    ensures
        ({
            let value = labelled_url(label@, url@);
            &&& result is Ok <==> value is Ok
            &&& result matches Ok(parsed) ==> value == Ok::<Seq<char>, Seq<char>>(parsed@)
            &&& result matches Err(e) ==> value == Err::<Seq<char>, Seq<char>>(e@)
        }),
{
    match parse_url(url) {
        Ok(parsed) => Ok(parsed),
        Err(e) => Err(labelled(label, e.as_str())),
    }
}

fn check_optional_url(label: &str, url: &Option<String>) -> (result: Result<
    Option<String>,
    String,
>)
    ensures
        ({
            let value = optional_url(label@, *url);
            &&& result is Ok <==> value is Ok
            &&& result matches Ok(parsed) ==> value == Ok::<Option<Seq<char>>, Seq<char>>(
                option_text(parsed),
            )
            &&& result matches Err(e) ==> value == Err::<Option<Seq<char>>, Seq<char>>(e@)
        }),
{
    match url {
        None => Ok(None),
        Some(url) => match check_url(label, url.as_str()) {
            Ok(parsed) => Ok(Some(parsed)),
            Err(e) => Err(e),
        },
    }
}

/// Makes the request of an app whose ID was read.
pub fn register_request(app_id: [u8; 32], meta: AppMeta) -> (result: Result<
    RegisterAppRequest,
    String,
>)
    ensures
        result is Ok <==> app_urls(meta) is Ok,
        result matches Ok(request) ==> {
            &&& request.app_id == app_id
            &&& request.name == meta.name
            &&& request.description == meta.description
            &&& app_urls(meta)->Ok_0 == (
                request.service_url@,
                option_text(request.logo_url),
                option_text(request.callback_url),
            )
        },
        result matches Err(e) ==> app_urls(meta)->Err_0 == e@,
        result matches Ok(request) ==> {
            &&& request.app_id == app_id
            &&& request.name@ == meta.name@
            &&& request.description@ == meta.description@
            &&& url_value(meta.service_url@) == Ok::<Seq<char>, Seq<char>>(request.service_url@)
            &&& request.logo_url is Some <==> meta.logo_url is Some
            &&& request.logo_url matches Some(url) ==> url_value(meta.logo_url->0@) == Ok::<
                Seq<char>,
                Seq<char>,
            >(url@)
            &&& request.callback_url is Some <==> meta.callback_url is Some
            &&& request.callback_url matches Some(url) ==> url_value(meta.callback_url->0@) == Ok::<
                Seq<char>,
                Seq<char>,
            >(url@)
        },
        result matches Err(e) ==> {
            if url_value(meta.service_url@) is Err {
                e@ == "invalid service url: "@ + url_value(meta.service_url@)->Err_0
            } else if meta.logo_url is Some && url_value(meta.logo_url->0@) is Err {
                e@ == "invalid logo url: "@ + url_value(meta.logo_url->0@)->Err_0
            } else {
                &&& meta.callback_url is Some
                &&& url_value(meta.callback_url->0@) is Err
                &&& e@ == "invalid callback url: "@ + url_value(meta.callback_url->0@)->Err_0
            }
        },
{
    let service_url = match check_url("invalid service url: ", meta.service_url.as_str()) {
        Ok(url) => url,
        Err(e) => {
            return Err(e);
        },
    };
    let logo_url = match check_optional_url("invalid logo url: ", &meta.logo_url) {
        Ok(url) => url,
        Err(e) => {
            return Err(e);
        },
    };
    let callback_url = match check_optional_url("invalid callback url: ", &meta.callback_url) {
        Ok(url) => url,
        Err(e) => {
            return Err(e);
        },
    };
    Ok(
        RegisterAppRequest {
            app_id,
            name: meta.name,
            description: meta.description,
            service_url,
            logo_url,
            callback_url,
        },
    )
}

/// A connection builder.
pub struct NativeBuilder<D, R, A> {
    pub state: State<D, R, A>,
}

impl<D, R, A> NativeBuilder<D, R, A> {
    /// A builder that has not contacted the indexer.
    pub fn new(builder: D) -> (result: NativeBuilder<D, R, A>)
        ensures
            result.state == Some(BuilderState::<D, R, A>::Disconnected(builder)),
    {
        NativeBuilder { state: Some(BuilderState::Disconnected(builder)) }
    }

    /// Begins to request a connection. An app ID that cannot be read leaves the state as it is;
    /// a URL that cannot be read is only found when the state has been taken, which is then
    /// lost.
    pub fn request_connection(&mut self, meta: AppMeta) -> (result: Result<
        (D, RegisterAppRequest),
        String,
    >)
        ensures
            result is Ok ==> awaits_connection(old(self).state),
            match hash_value(meta.id@) {
                None => {
                    &&& result is Err
                    &&& result->Err_0@ == hash_error(meta.id@)
                    &&& final(self).state == old(self).state
                },
                Some(app_id) => match old(self).state {
                    Some(BuilderState::Disconnected(builder)) => {
                        &&& final(self).state is None
                        &&& result is Ok <==> app_urls(meta) is Ok
                        &&& result matches Ok((d, request)) ==> {
                            &&& d == builder
                            &&& request.app_id@ == app_id
                            &&& request.name == meta.name
                            &&& request.description == meta.description
                            &&& app_urls(meta)->Ok_0 == (
                                request.service_url@,
                                option_text(request.logo_url),
                                option_text(request.callback_url),
                            )
                        }
                        &&& result matches Err(e) ==> app_urls(meta)->Err_0 == e@
                        &&& result matches Ok((d, request)) ==> {
                            &&& url_value(meta.service_url@) == Ok::<Seq<char>, Seq<char>>(
                                request.service_url@,
                            )
                            &&& request.logo_url is Some <==> meta.logo_url is Some
                            &&& request.logo_url matches Some(url) ==> url_value(
                                meta.logo_url->0@,
                            ) == Ok::<Seq<char>, Seq<char>>(url@)
                            &&& request.callback_url is Some <==> meta.callback_url is Some
                            &&& request.callback_url matches Some(url) ==> url_value(
                                meta.callback_url->0@,
                            ) == Ok::<Seq<char>, Seq<char>>(url@)
                        }
                        &&& result matches Err(e) ==> {
                            if url_value(meta.service_url@) is Err {
                                e@ == "invalid service url: "@ + url_value(
                                    meta.service_url@,
                                )->Err_0
                            } else if meta.logo_url is Some && url_value(
                                meta.logo_url->0@,
                            ) is Err {
                                e@ == "invalid logo url: "@ + url_value(meta.logo_url->0@)->Err_0
                            } else {
                                &&& meta.callback_url is Some
                                &&& url_value(meta.callback_url->0@) is Err
                                &&& e@ == "invalid callback url: "@ + url_value(
                                    meta.callback_url->0@,
                                )->Err_0
                            }
                        }
                    },
                    _ => {
                        &&& result is Err
                        &&& result->Err_0@ == "invalid state for requestConnection"@
                        &&& final(self).state == old(self).state
                    },
                },
            },
    {
        let app_id = match parse_hash(meta.id.as_str()) {
            Ok(app_id) => app_id,
            Err(e) => {
                return Err(e);
            },
        };
        match take_disconnected(&mut self.state) {
            Some(builder) => match register_request(app_id, meta) {
                Ok(request) => Ok((builder, request)),
                Err(e) => Err(e),
            },
            None => Err("invalid state for requestConnection".to_string()),
        }
    }

    /// Begins to take a connection response that was fetched out of band. `response` is the
    /// response as it was read, or what is wrong with it.
    pub fn set_connection_response<T>(
        &mut self,
        app_id_hex: &str,
        response: Result<T, String>,
    ) -> (result: Result<(D, [u8; 32], T), String>)
        ensures
            result is Ok ==> awaits_connection(old(self).state),
            match hash_value(app_id_hex@) {
                None => {
                    &&& result is Err
                    &&& result->Err_0@ == hash_error(app_id_hex@)
                    &&& final(self).state == old(self).state
                },
                Some(app_id) => match response {
                    Err(e) => {
                        &&& result == Err::<(D, [u8; 32], T), String>(e)
                        &&& final(self).state == old(self).state
                    },
                    Ok(response) => match old(self).state {
                        Some(BuilderState::Disconnected(builder)) => {
                            &&& final(self).state is None
                            &&& result is Ok
                            &&& result->Ok_0.0 == builder
                            &&& result->Ok_0.1@ == app_id
                            &&& result->Ok_0.2 == response
                        },
                        _ => {
                            &&& result is Err
                            &&& result->Err_0@
                                == "invalid state for setConnectionResponse: expected Disconnected"@
                            &&& final(self).state == old(self).state
                        },
                    },
                },
            },
    {
        let app_id = match parse_hash(app_id_hex) {
            Ok(app_id) => app_id,
            Err(e) => {
                return Err(e);
            },
        };
        let response = match response {
            Ok(response) => response,
            Err(e) => {
                return Err(e);
            },
        };
        match take_disconnected(&mut self.state) {
            Some(builder) => Ok((builder, app_id, response)),
            None => Err(
                "invalid state for setConnectionResponse: expected Disconnected".to_string(),
            ),
        }
    }

    /// Ends `request_connection` or `set_connection_response`: the app waits for approval, or
    /// the step failed.
    pub fn connection_requested(&mut self, outcome: Result<R, String>) -> (result: Result<
        (),
        String,
    >)
        ensures
            match outcome {
                Ok(builder) => {
                    &&& result is Ok
                    &&& final(self).state == Some(
                        BuilderState::<D, R, A>::RequestingApproval(builder),
                    )
                },
                Err(e) => {
                    &&& result == Err::<(), String>(e)
                    &&& final(self).state == old(self).state
                },
            },
    {
        match outcome {
            Ok(builder) => {
                self.state = Some(BuilderState::RequestingApproval(builder));
                Ok(())
            },
            Err(e) => Err(e),
        }
    }

    /// What knows the URL that the user must visit to approve the app.
    pub fn response_url(&self) -> (result: Result<&R, String>)
        ensures
            result is Ok ==> awaits_approval(self.state),
            match self.state {
                Some(BuilderState::RequestingApproval(builder)) => result is Ok && *result->Ok_0
                    == builder,
                _ => result is Err && result->Err_0@ == "invalid state for responseUrl"@,
            },
    {
        match &self.state {
            Some(BuilderState::RequestingApproval(builder)) => Ok(builder),
            _ => Err("invalid state for responseUrl".to_string()),
        }
    }

    /// Begins to wait for the user's approval.
    pub fn wait_for_approval(&mut self) -> (result: Result<R, String>)
        ensures
            result is Ok ==> awaits_approval(old(self).state),
            match old(self).state {
                Some(BuilderState::RequestingApproval(builder)) => {
                    &&& result == Ok::<R, String>(builder)
                    &&& final(self).state is None
                },
                _ => {
                    &&& result is Err
                    &&& result->Err_0@ == "invalid state for waitForApproval"@
                    &&& final(self).state == old(self).state
                },
            },
    {
        match take_requesting(&mut self.state) {
            Some(builder) => Ok(builder),
            None => Err("invalid state for waitForApproval".to_string()),
        }
    }

    /// Ends `wait_for_approval`.
    pub fn approved(&mut self, outcome: Result<A, String>) -> (result: Result<(), String>)
        ensures
            match outcome {
                Ok(builder) => {
                    &&& result is Ok
                    &&& final(self).state == Some(BuilderState::<D, R, A>::Approved(builder))
                },
                Err(e) => {
                    &&& result == Err::<(), String>(e)
                    &&& final(self).state == old(self).state
                },
            },
    {
        match outcome {
            Ok(builder) => {
                self.state = Some(BuilderState::Approved(builder));
                Ok(())
            },
            Err(e) => Err(e),
        }
    }

    /// Begins to connect with an app key that may be known already.
    pub fn connected(&mut self) -> (result: Result<D, String>)
        ensures
            result is Ok ==> awaits_connection(old(self).state),
            match old(self).state {
                Some(BuilderState::Disconnected(builder)) => {
                    &&& result == Ok::<D, String>(builder)
                    &&& final(self).state is None
                },
                _ => {
                    &&& result is Err
                    &&& result->Err_0@ == "invalid state for connected"@
                    &&& final(self).state == old(self).state
                },
            },
    {
        match take_disconnected(&mut self.state) {
            Some(builder) => Ok(builder),
            None => Err("invalid state for connected".to_string()),
        }
    }

    /// Ends `connected`. Where the key is not known, the builder can be used again.
    pub fn connect_finished<S>(
        &mut self,
        builder: D,
        outcome: Result<Option<S>, String>,
    ) -> (result: Result<Option<S>, String>)
        ensures
            result == outcome,
            match outcome {
                Ok(Some(_)) => final(self).state == Some(BuilderState::<D, R, A>::Finalized),
                Ok(None) => final(self).state == Some(
                    BuilderState::<D, R, A>::Disconnected(builder),
                ),
                Err(_) => final(self).state == old(self).state,
            },
    {
        match outcome {
            Ok(Some(sdk)) => {
                self.state = Some(BuilderState::Finalized);
                Ok(Some(sdk))
            },
            Ok(None) => {
                self.state = Some(BuilderState::Disconnected(builder));
                Ok(None)
            },
            Err(e) => Err(e),
        }
    }

    /// Begins to register the app with the user's recovery phrase.
    pub fn register(&mut self) -> (result: Result<A, String>)
        ensures
            result is Ok ==> awaits_registration(old(self).state),
            match old(self).state {
                Some(BuilderState::Approved(builder)) => {
                    &&& result == Ok::<A, String>(builder)
                    &&& final(self).state is None
                },
                _ => {
                    &&& result is Err
                    &&& result->Err_0@ == "invalid state for register"@
                    &&& final(self).state == old(self).state
                },
            },
    {
        match take_approved(&mut self.state) {
            Some(builder) => Ok(builder),
            None => Err("invalid state for register".to_string()),
        }
    }

    /// Ends `register`.
    pub fn registered<S>(&mut self, outcome: Result<S, String>) -> (result: Result<S, String>)
        ensures
            result == outcome,
            match outcome {
                Ok(_) => final(self).state == Some(BuilderState::<D, R, A>::Finalized),
                Err(_) => final(self).state == old(self).state,
            },
    {
        match outcome {
            Ok(sdk) => {
                self.state = Some(BuilderState::Finalized);
                Ok(sdk)
            },
            Err(e) => Err(e),
        }
    }
}

} // verus!
